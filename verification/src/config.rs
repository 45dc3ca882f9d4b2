//! Saved preferences: recent commands, favorites, last position and theme.
use vstd::prelude::*;

use crate::search::views;

verus! {

/// How many recent commands the history keeps.
pub const HISTORY_LIMIT: usize = 100;

/// The persistent settings of the browser.
#[derive(Debug)]
pub struct Config {
    pub history: Vec<String>,
    pub favorites: Vec<String>,
    pub last_command: Option<String>,
    pub last_section: Option<u8>,
    pub theme: String,
}

/// The settings as plain values.
#[verifier::ext_equal]
pub struct ConfigView {
    pub history: Seq<Seq<char>>,
    pub favorites: Seq<Seq<char>>,
    pub last_command: Option<Seq<char>>,
    pub last_section: Option<u8>,
    pub theme: Seq<char>,
}

/// The characters of an optional string.
pub open spec fn opt_view(o: Option<String>) -> Option<Seq<char>> {
    match o {
        Some(s) => Some(s@),
        None => None,
    }
}

impl View for Config {
    type V = ConfigView;

    open spec fn view(&self) -> ConfigView {
        ConfigView {
            history: views(self.history@),
            favorites: views(self.favorites@),
            last_command: opt_view(self.last_command),
            last_section: self.last_section,
            theme: self.theme@,
        }
    }
}

/// `s` with every occurrence of `x` left out, the rest in order.
pub open spec fn without(s: Seq<Seq<char>>, x: Seq<char>) -> Seq<Seq<char>>
    decreases s.len(),
{
    if s.len() == 0 {
        Seq::empty()
    } else {
        let r = without(s.drop_last(), x);
        if s.last() == x {
            r
        } else {
            r.push(s.last())
        }
    }
}

/// At most the first `n` entries of `s`.
pub open spec fn at_most(s: Seq<Seq<char>>, n: nat) -> Seq<Seq<char>> {
    if s.len() > n {
        s.take(n as int)
    } else {
        s
    }
}

/// The history after `cmd` was opened: `cmd` first, then the earlier entries
/// other than `cmd`, cut to the limit.
pub open spec fn history_after(history: Seq<Seq<char>>, cmd: Seq<char>) -> Seq<Seq<char>> {
    at_most(seq![cmd] + without(history, cmd), HISTORY_LIMIT as nat)
}

/// The position of the first `x` in `s`; `s.len()` when there is none.
pub open spec fn first_position(s: Seq<Seq<char>>, x: Seq<char>) -> int
    decreases s.len(),
{
    if s.len() == 0 {
        0
    } else if s[0] == x {
        0
    } else {
        1 + first_position(s.drop_first(), x)
    }
}

/// The favorites after toggling `cmd`: its first occurrence removed when it is
/// there, else `cmd` added at the end.
pub open spec fn toggled(favorites: Seq<Seq<char>>, cmd: Seq<char>) -> Seq<Seq<char>> {
    if favorites.contains(cmd) {
        favorites.remove(first_position(favorites, cmd))
    } else {
        favorites.push(cmd)
    }
}

/// No entry occurs twice.
pub open spec fn no_duplicates(s: Seq<Seq<char>>) -> bool {
    forall|i: int, j: int| 0 <= i < j < s.len() ==> s[i] != s[j]
}

proof fn lemma_first_position(s: Seq<Seq<char>>, x: Seq<char>, i: int)
    requires
        0 <= i < s.len(),
        s[i] == x,
        forall|j: int| 0 <= j < i ==> s[j] != x,
    ensures
        first_position(s, x) == i,
    decreases i,
{
    if i > 0 {
        lemma_first_position(s.drop_first(), x, i - 1);
    }
}

/// The position of the first string equal to `x`, if any.
fn position_of(v: &Vec<String>, x: &String) -> (r: Option<usize>)
    ensures
        match r {
            Some(i) => views(v@).contains(x@) && i as int == first_position(views(v@), x@)
                && i < v@.len(),
            None => !views(v@).contains(x@),
        },
{
    let mut i: usize = 0;
    while i < v.len()
        invariant
            i <= v@.len(),
            forall|j: int| 0 <= j < i ==> views(v@)[j] != x@,
        decreases v@.len() - i,
    {
        if v[i] == *x {
            proof {
                assert(views(v@)[i as int] == x@);
                lemma_first_position(views(v@), x@, i as int);
            }
            return Some(i);
        }
        i = i + 1;
    }
    None
}

impl Default for Config {
    fn default() -> (c: Self)
        ensures
            c@.history == Seq::<Seq<char>>::empty(),
            c@.favorites == Seq::<Seq<char>>::empty(),
            c@.last_command is None,
            c@.last_section is None,
            c@.theme == Seq::<char>::empty(),
    {
        let c = Config {
            history: Vec::new(),
            favorites: Vec::new(),
            last_command: None,
            last_section: None,
            theme: String::new(),
        };
        assert(c@.history =~= Seq::<Seq<char>>::empty());
        assert(c@.favorites =~= Seq::<Seq<char>>::empty());
        c
    }
}

impl Config {
    /// Records that `cmd` was opened: it moves to the front of the history,
    /// which keeps no other copy of it and at most `HISTORY_LIMIT` entries.
    pub fn add_to_history(&mut self, cmd: String)
        ensures
            final(self)@.history == history_after(old(self)@.history, cmd@),
            final(self).favorites == old(self).favorites,
            final(self).last_command == old(self).last_command,
            final(self).last_section == old(self).last_section,
            final(self).theme == old(self).theme,
    {
        let mut kept: Vec<String> = Vec::new();
        let ghost old_h = views(self.history@);
        kept.push(cmd.clone());
        assert(views(kept@) =~= seq![cmd@] + without(old_h.take(0), cmd@));
        let mut i: usize = 0;
        while i < self.history.len()
            invariant
                i <= self.history@.len(),
                old_h == views(self.history@),
                views(kept@) == seq![cmd@] + without(old_h.take(i as int), cmd@),
            decreases self.history@.len() - i,
        {
            let ghost before = kept@;
            assert(old_h.take(i + 1).drop_last() =~= old_h.take(i as int));
            if self.history[i] != cmd {
                kept.push(self.history[i].clone());
                assert(views(kept@) =~= views(before).push(self.history@[i as int]@));
            }
            i = i + 1;
        }
        assert(old_h.take(i as int) =~= old_h);
        kept.truncate(HISTORY_LIMIT);
        assert(views(kept@) =~= history_after(old_h, cmd@));
        self.history = kept;
    }

    /// Adds `cmd` to the favorites, or removes its first occurrence when it is
    /// there already; returns whether it was added.
    pub fn toggle_favorite(&mut self, cmd: String) -> (added: bool)
        ensures
            added == !old(self)@.favorites.contains(cmd@),
            final(self)@.favorites == toggled(old(self)@.favorites, cmd@),
            final(self).history == old(self).history,
            final(self).last_command == old(self).last_command,
            final(self).last_section == old(self).last_section,
            final(self).theme == old(self).theme,
    {
        let ghost old_f = views(self.favorites@);
        match position_of(&self.favorites, &cmd) {
            Some(i) => {
                self.favorites.remove(i);
                assert(views(self.favorites@) =~= old_f.remove(i as int));
                false
            },
            None => {
                self.favorites.push(cmd);
                assert(views(self.favorites@) =~= old_f.push(cmd@));
                true
            },
        }
    }

    /// Whether `cmd` is among the favorites.
    pub fn is_favorite(&self, cmd: &str) -> (r: bool)
        ensures
            r == self@.favorites.contains(cmd@),
    {
        let wanted = String::from_str(cmd);
        let mut i: usize = 0;
        while i < self.favorites.len()
            invariant
                i <= self.favorites@.len(),
                wanted@ == cmd@,
                forall|j: int| 0 <= j < i ==> self@.favorites[j] != cmd@,
            decreases self.favorites@.len() - i,
        {
            if self.favorites[i] == wanted {
                assert(self@.favorites[i as int] == cmd@);
                return true;
            }
            i = i + 1;
        }
        false
    }
}

proof fn lemma_without(s: Seq<Seq<char>>, x: Seq<char>)
    ensures
        !without(s, x).contains(x),
        without(s, x).len() <= s.len(),
        forall|y: Seq<char>| #[trigger] without(s, x).contains(y) ==> s.contains(y),
        no_duplicates(s) ==> no_duplicates(without(s, x)),
    decreases s.len(),
{
    if s.len() > 0 {
        let init = s.drop_last();
        lemma_without(init, x);
        let r = without(init, x);
        assert forall|y: Seq<char>| #[trigger] without(s, x).contains(y) implies s.contains(y) by {
            if r.contains(y) {
                assert(init.contains(y));
                let k = choose|k: int| 0 <= k < init.len() && init[k] == y;
                assert(s[k] == y);
            } else {
                assert(s[s.len() - 1] == y);
            }
        }
        if no_duplicates(s) {
            assert(no_duplicates(init));
            if s.last() != x {
                assert forall|i: int, j: int|
                    0 <= i < j < without(s, x).len() implies without(s, x)[i] != without(s, x)[j] by {
                    if j == r.len() {
                        if r[i] == s.last() {
                            assert(r.contains(s.last()));
                            assert(init.contains(s.last()));
                            let k = choose|k: int| 0 <= k < init.len() && init[k] == s.last();
                            assert(s[k] == s[s.len() - 1]);
                        }
                    }
                }
            }
        }
    }
}

/// The history after opening `cmd` starts with `cmd`, holds it once, keeps at
/// most `HISTORY_LIMIT` entries, holds only commands that were opened, and has
/// no repeated entry when the history before had none.
pub proof fn lemma_history_after(history: Seq<Seq<char>>, cmd: Seq<char>)
    ensures
        history_after(history, cmd).len() >= 1,
        history_after(history, cmd).len() <= HISTORY_LIMIT,
        history_after(history, cmd)[0] == cmd,
        forall|i: int| 0 < i < history_after(history, cmd).len() ==> #[trigger] history_after(history, cmd)[i] != cmd,
        forall|y: Seq<char>| #[trigger] history_after(history, cmd).contains(y) ==> y == cmd || history.contains(y),
        no_duplicates(history) ==> no_duplicates(history_after(history, cmd)),
{
    lemma_without(history, cmd);
    let w = without(history, cmd);
    let full = seq![cmd] + w;
    let h = history_after(history, cmd);
    assert forall|i: int| 0 < i < h.len() implies #[trigger] h[i] != cmd by {
        assert(h[i] == w[i - 1]);
        if w[i - 1] == cmd {
            assert(w.contains(cmd));
        }
    }
    assert forall|y: Seq<char>| #[trigger] h.contains(y) implies y == cmd || history.contains(y) by {
        let k = choose|k: int| 0 <= k < h.len() && h[k] == y;
        if k > 0 {
            assert(w[k - 1] == y);
            assert(w.contains(y));
        }
    }
    if no_duplicates(history) {
        assert forall|i: int, j: int| 0 <= i < j < h.len() implies h[i] != h[j] by {
            if i > 0 {
                assert(h[i] == w[i - 1]);
                assert(h[j] == w[j - 1]);
            }
        }
    }
}

/// Toggling a command that is not a favorite twice leaves the favorites as
/// they were.
pub proof fn lemma_toggle_twice_restores(favorites: Seq<Seq<char>>, cmd: Seq<char>)
    requires
        !favorites.contains(cmd),
    ensures
        toggled(toggled(favorites, cmd), cmd) == favorites,
{
    let f1 = favorites.push(cmd);
    assert(f1[favorites.len() as int] == cmd);
    assert(f1.contains(cmd));
    assert forall|j: int| 0 <= j < favorites.len() implies f1[j] != cmd by {
        assert(f1[j] == favorites[j]);
        if favorites[j] == cmd {
            assert(favorites.contains(cmd));
        }
    }
    lemma_first_position(f1, cmd, favorites.len() as int);
    assert(f1.remove(favorites.len() as int) =~= favorites);
}

/// With no repeated favorites, a toggled command is a favorite afterwards
/// exactly when it was not one before, and no favorite is repeated afterwards.
pub proof fn lemma_toggle_flips_membership(favorites: Seq<Seq<char>>, cmd: Seq<char>)
    requires
        no_duplicates(favorites),
    ensures
        toggled(favorites, cmd).contains(cmd) == !favorites.contains(cmd),
        no_duplicates(toggled(favorites, cmd)),
{
    let t = toggled(favorites, cmd);
    if favorites.contains(cmd) {
        let k = choose|k: int| 0 <= k < favorites.len() && favorites[k] == cmd;
        assert forall|j: int| 0 <= j < k implies favorites[j] != cmd by {}
        lemma_first_position(favorites, cmd, k);
        if t.contains(cmd) {
            let m = choose|m: int| 0 <= m < t.len() && t[m] == cmd;
            if m < k {
                assert(favorites[m] == cmd);
            } else {
                assert(favorites[m + 1] == cmd);
            }
        }
        assert forall|i: int, j: int| 0 <= i < j < t.len() implies t[i] != t[j] by {
            let i2 = if i < k { i } else { i + 1 };
            let j2 = if j < k { j } else { j + 1 };
            assert(t[i] == favorites[i2]);
            assert(t[j] == favorites[j2]);
        }
    } else {
        assert(t[favorites.len() as int] == cmd);
        assert forall|i: int, j: int| 0 <= i < j < t.len() implies t[i] != t[j] by {
            if j == favorites.len() {
                assert(t[i] == favorites[i]);
            }
        }
    }
}

proof fn lemma_without_keeps_others(s: Seq<Seq<char>>, x: Seq<char>, y: Seq<char>)
    requires
        s.contains(y),
        y != x,
    ensures
        without(s, x).contains(y),
    decreases s.len(),
{
    let init = s.drop_last();
    if s.last() == y {
        assert(without(s, x)[without(s, x).len() - 1] == y);
    } else {
        let k = choose|k: int| 0 <= k < s.len() && s[k] == y;
        assert(init[k] == y);
        lemma_without_keeps_others(init, x, y);
        let r = without(init, x);
        let m = choose|m: int| 0 <= m < r.len() && r[m] == y;
        if s.last() != x {
            assert(without(s, x)[m] == y);
        }
    }
}

/// Opening a command keeps every other command of the history: when the
/// history holds fewer than `HISTORY_LIMIT` entries, each entry other than the
/// opened command is still in it afterwards, behind the opened one.
pub proof fn lemma_history_keeps_other_commands(history: Seq<Seq<char>>, cmd: Seq<char>, y: Seq<char>)
    requires
        history.contains(y),
        y != cmd,
        history.len() < HISTORY_LIMIT,
    ensures
        history_after(history, cmd).contains(y),
        history_after(history, cmd)[0] == cmd,
{
    lemma_without_keeps_others(history, cmd, y);
    lemma_without(history, cmd);
    let w = without(history, cmd);
    let full = seq![cmd] + w;
    assert(full.len() <= HISTORY_LIMIT);
    let m = choose|m: int| 0 <= m < w.len() && w[m] == y;
    assert(full[m + 1] == y);
    assert(history_after(history, cmd) == full);
}

} // verus!
