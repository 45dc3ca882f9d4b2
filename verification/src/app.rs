//! The browser's state and the decisions it takes on each key.
use std::time::Instant;
use vstd::prelude::*;

use crate::cache::{cache_key, page_key, PageCache};
use crate::config::{history_after, opt_view, toggled, Config, ConfigView};
use crate::search::{copy_strings, filter_commands, filter_result, views};
use crate::text::{
    chars_equal, chars_of, contains_chars, has_substring, lowercase, split_lines,
    string_from_chars, text_lines, to_lowercase,
};

verus! {

#[verifier::external_type_specification]
#[verifier::external_body]
pub struct ExInstant(Instant);

/// Calls `Instant::now`. Nothing is stated of the instant it reads.
#[verifier::external_body]
fn now() -> Instant {
    Instant::now()
}

/// Calls `Instant::elapsed` and converts the duration to whole milliseconds
/// with `Duration::as_millis`. Nothing is stated of the result: it reads the clock.
#[verifier::external_body]
fn elapsed_millis(since: &Instant) -> u128 {
    since.elapsed().as_millis()
}

/// How long the search query must stay unchanged before the list is filtered again.
pub const SEARCH_DEBOUNCE_MILLIS: u128 = 150;

/// How many lines a page step scrolls.
pub const PAGE_STEP: usize = 10;

/// How many lines are shown above an in-page match.
pub const MATCH_CONTEXT: usize = 5;

/// Which part of the screen takes the keys.
#[derive(Clone, Copy, PartialEq, Eq, Structural, Debug)]
pub enum FocusState {
    Search,
    List,
    Viewer,
    SectionSelect,
    InPageSearch,
}

/// Colour scheme.
#[derive(Clone, Copy, PartialEq, Eq, Structural, Debug)]
pub enum Theme {
    Dark,
    Light,
}

/// The name under which a theme is saved.
pub open spec fn theme_name(t: Theme) -> Seq<char> {
    match t {
        Theme::Light => "light"@,
        Theme::Dark => "dark"@,
    }
}

/// The theme a saved name stands for: `light`, or dark for anything else.
pub open spec fn theme_named(s: Seq<char>) -> Theme {
    if s == "light"@ {
        Theme::Light
    } else {
        Theme::Dark
    }
}

/// The other theme.
pub open spec fn flipped(t: Theme) -> Theme {
    match t {
        Theme::Dark => Theme::Light,
        Theme::Light => Theme::Dark,
    }
}

impl Theme {
    /// The theme saved under `s`.
    pub fn from_str(s: &str) -> (t: Self)
        ensures
            t == theme_named(s@),
    {
        let light = chars_of("light");
        let given = chars_of(s);
        if chars_equal(given.as_slice(), light.as_slice()) {
            Theme::Light
        } else {
            Theme::Dark
        }
    }

    /// The name under which the theme is saved.
    pub fn to_str(&self) -> (s: &'static str)
        ensures
            s@ == theme_name(*self),
    {
        match self {
            Theme::Light => "light",
            Theme::Dark => "dark",
        }
    }
}

/// A key press, as far as the browser tells keys apart.
#[derive(Clone, Copy, PartialEq, Eq, Structural, Debug)]
pub enum Key {
    Char(char),
    Backspace,
    Enter,
    Tab,
    Esc,
    Up,
    Down,
    PageUp,
    PageDown,
    Other,
}

/// What the caller has to do after a key: nothing, stop, load the selected
/// page, or load the commands of the chosen section.
#[derive(Clone, Copy, PartialEq, Eq, Structural, Debug)]
pub enum KeyAction {
    Continue,
    Quit,
    OpenPage,
    SelectSection,
}

/// The whole state of the browser.
pub struct App {
    pub search_query: String,
    pub all_commands: Vec<String>,
    pub filtered_commands: Vec<String>,
    pub selected_index: usize,
    pub man_content: String,
    pub scroll_offset: usize,
    pub focus: FocusState,
    pub last_search_update: Option<Instant>,
    pub selected_section: Option<u8>,
    pub available_sections: Vec<u8>,
    pub section_select_index: usize,
    pub in_page_search_query: String,
    pub in_page_search_matches: Vec<usize>,
    pub current_match_index: Option<usize>,
    pub cache: PageCache,
    pub theme: Theme,
    pub config: Config,
    pub current_command: Option<String>,
}

/// The state of the browser as plain values.
#[verifier::ext_equal]
pub struct AppView {
    pub search_query: Seq<char>,
    pub all_commands: Seq<Seq<char>>,
    pub filtered_commands: Seq<Seq<char>>,
    pub selected_index: int,
    pub man_content: Seq<char>,
    pub scroll_offset: int,
    pub focus: FocusState,
    pub last_search_update: Option<Instant>,
    pub selected_section: Option<u8>,
    pub available_sections: Seq<u8>,
    pub section_select_index: int,
    pub in_page_search_query: Seq<char>,
    pub in_page_search_matches: Seq<int>,
    pub current_match_index: Option<int>,
    pub cache: Map<Seq<char>, Seq<char>>,
    pub theme: Theme,
    pub config: ConfigView,
    pub current_command: Option<Seq<char>>,
}

impl View for App {
    type V = AppView;

    open spec fn view(&self) -> AppView {
        AppView {
            search_query: self.search_query@,
            all_commands: views(self.all_commands@),
            filtered_commands: views(self.filtered_commands@),
            selected_index: self.selected_index as int,
            man_content: self.man_content@,
            scroll_offset: self.scroll_offset as int,
            focus: self.focus,
            last_search_update: self.last_search_update,
            selected_section: self.selected_section,
            available_sections: self.available_sections@,
            section_select_index: self.section_select_index as int,
            in_page_search_query: self.in_page_search_query@,
            in_page_search_matches: self.in_page_search_matches@.map_values(|i: usize| i as int),
            current_match_index: match self.current_match_index {
                Some(i) => Some(i as int),
                None => None,
            },
            cache: self.cache@,
            theme: self.theme,
            config: self.config@,
            current_command: opt_view(self.current_command),
        }
    }
}

/// `a - b`, or 0 when that is negative.
pub open spec fn sat_sub(a: int, b: int) -> int {
    if a >= b {
        a - b
    } else {
        0
    }
}

/// `s` without its last character, if it has one.
pub open spec fn drop_last_char(s: Seq<char>) -> Seq<char> {
    if s.len() > 0 {
        s.drop_last()
    } else {
        s
    }
}

/// The focus that Tab moves to.
pub open spec fn next_focus(f: FocusState) -> FocusState {
    match f {
        FocusState::Search => FocusState::List,
        FocusState::List => FocusState::Viewer,
        FocusState::Viewer => FocusState::Search,
        FocusState::SectionSelect => FocusState::List,
        FocusState::InPageSearch => FocusState::Viewer,
    }
}

/// The section that the browser starts in: the saved one, else the first available.
pub open spec fn start_section(last: Option<u8>, sections: Seq<u8>) -> Option<u8> {
    match last {
        Some(s) => Some(s),
        None => if sections.len() > 0 {
            Some(sections[0])
        } else {
            None
        },
    }
}

/// The position of the first `x` in `s`; `s.len()` when there is none.
pub open spec fn first_u8_position(s: Seq<u8>, x: u8) -> int
    decreases s.len(),
{
    if s.len() == 0 {
        0
    } else if s[0] == x {
        0
    } else {
        1 + first_u8_position(s.drop_first(), x)
    }
}

/// The positions, in order, of the lines whose lower-case form contains `needle`.
pub open spec fn matching_lines(lines: Seq<Seq<char>>, needle: Seq<char>) -> Seq<int>
    decreases lines.len(),
{
    if lines.len() == 0 {
        Seq::empty()
    } else {
        let r = matching_lines(lines.drop_last(), needle);
        if has_substring(lowercase(lines.last()), needle) {
            r.push(lines.len() - 1)
        } else {
            r
        }
    }
}

impl AppView {
    /// The state with another focus.
    pub open spec fn focused(self, f: FocusState) -> AppView {
        AppView { focus: f, ..self }
    }

    /// The state after Tab.
    pub open spec fn switched(self) -> AppView {
        self.focused(next_focus(self.focus))
    }

    /// The state after moving up in the focused pane.
    pub open spec fn moved_up(self) -> AppView {
        match self.focus {
            FocusState::List => if self.filtered_commands.len() > 0 && self.selected_index > 0 {
                AppView { selected_index: self.selected_index - 1, ..self }
            } else {
                self
            },
            FocusState::Viewer => if self.scroll_offset > 0 {
                AppView { scroll_offset: self.scroll_offset - 1, ..self }
            } else {
                self
            },
            FocusState::SectionSelect => if self.section_select_index > 0 {
                AppView { section_select_index: self.section_select_index - 1, ..self }
            } else {
                self
            },
            _ => self,
        }
    }

    /// The state after moving down in the focused pane.
    pub open spec fn moved_down(self) -> AppView {
        match self.focus {
            FocusState::List => if self.filtered_commands.len() > 0 && self.selected_index + 1
                < self.filtered_commands.len() {
                AppView { selected_index: self.selected_index + 1, ..self }
            } else {
                self
            },
            FocusState::Viewer => AppView { scroll_offset: self.scroll_offset + 1, ..self },
            FocusState::SectionSelect => if self.section_select_index + 1
                < self.available_sections.len() {
                AppView { section_select_index: self.section_select_index + 1, ..self }
            } else {
                self
            },
            _ => self,
        }
    }

    /// The state after the search query became `query` at `stamp`.
    pub open spec fn searched(self, query: Seq<char>, stamp: Option<Instant>) -> AppView {
        AppView { search_query: query, last_search_update: stamp, selected_index: 0, ..self }
    }

    /// The state once the pending search was run and gave `filtered`.
    pub open spec fn refiltered(self, filtered: Seq<Seq<char>>) -> AppView {
        AppView {
            filtered_commands: filtered,
            selected_index: if filtered.len() == 0 {
                0
            } else if self.selected_index >= filtered.len() {
                filtered.len() - 1
            } else {
                self.selected_index
            },
            last_search_update: None,
            ..self
        }
    }

    /// The state after the section selector was opened.
    pub open spec fn section_select_focused(self) -> AppView {
        let s = AppView { focus: FocusState::SectionSelect, ..self };
        match self.selected_section {
            Some(sec) => if self.available_sections.contains(sec) {
                AppView {
                    section_select_index: first_u8_position(self.available_sections, sec),
                    ..s
                }
            } else {
                s
            },
            None => s,
        }
    }

    /// The state after the page of `cmd` was shown with text `content`,
    /// the cache then being `cache`.
    pub open spec fn page_shown(
        self,
        cmd: Seq<char>,
        content: Seq<char>,
        cache: Map<Seq<char>, Seq<char>>,
    ) -> AppView {
        AppView {
            current_command: Some(cmd),
            man_content: content,
            cache: cache,
            scroll_offset: 0,
            in_page_search_query: Seq::empty(),
            in_page_search_matches: Seq::empty(),
            current_match_index: None,
            config: ConfigView { history: history_after(self.config.history, cmd), ..self.config },
            ..self
        }
    }

    /// The state after an in-page search was started.
    pub open spec fn in_page_started(self) -> AppView {
        AppView {
            focus: FocusState::InPageSearch,
            in_page_search_query: Seq::empty(),
            in_page_search_matches: Seq::empty(),
            current_match_index: None,
            ..self
        }
    }

    /// The state after the in-page search was cancelled.
    pub open spec fn in_page_cancelled(self) -> AppView {
        AppView {
            focus: FocusState::Viewer,
            in_page_search_query: Seq::empty(),
            in_page_search_matches: Seq::empty(),
            current_match_index: None,
            ..self
        }
    }

    /// The state once the lines matching the in-page query were found; the
    /// view scrolls to the first match.
    pub open spec fn with_matches(self) -> AppView {
        if self.in_page_search_query.len() == 0 {
            AppView { in_page_search_matches: Seq::empty(), current_match_index: None, ..self }
        } else {
            let m = matching_lines(text_lines(self.man_content), lowercase(self.in_page_search_query));
            if m.len() > 0 {
                AppView {
                    in_page_search_matches: m,
                    current_match_index: Some(0),
                    scroll_offset: sat_sub(m[0], MATCH_CONTEXT as int),
                    ..self
                }
            } else {
                AppView { in_page_search_matches: m, current_match_index: None, ..self }
            }
        }
    }

    /// The state after the in-page query became `query`.
    pub open spec fn in_page_searched(self, query: Seq<char>) -> AppView {
        AppView { in_page_search_query: query, ..self }.with_matches()
    }

    /// The state after moving to the next in-page match.
    pub open spec fn next_matched(self) -> AppView {
        match self.current_match_index {
            Some(c) => if c + 1 < self.in_page_search_matches.len() {
                AppView {
                    current_match_index: Some(c + 1),
                    scroll_offset: sat_sub(self.in_page_search_matches[c + 1], MATCH_CONTEXT as int),
                    ..self
                }
            } else {
                self
            },
            None => self,
        }
    }

    /// The state after moving to the previous in-page match.
    pub open spec fn prev_matched(self) -> AppView {
        match self.current_match_index {
            Some(c) => if c > 0 {
                if c - 1 < self.in_page_search_matches.len() {
                    AppView {
                        current_match_index: Some(c - 1),
                        scroll_offset: sat_sub(
                            self.in_page_search_matches[c - 1],
                            MATCH_CONTEXT as int,
                        ),
                        ..self
                    }
                } else {
                    AppView { current_match_index: Some(c - 1), ..self }
                }
            } else {
                self
            },
            None => self,
        }
    }

    /// The state after a page up in the viewer.
    pub open spec fn paged_up(self) -> AppView {
        if self.focus == FocusState::Viewer {
            AppView { scroll_offset: sat_sub(self.scroll_offset, PAGE_STEP as int), ..self }
        } else {
            self
        }
    }

    /// The state after a page down in the viewer.
    pub open spec fn paged_down(self) -> AppView {
        if self.focus == FocusState::Viewer {
            AppView { scroll_offset: self.scroll_offset + PAGE_STEP, ..self }
        } else {
            self
        }
    }

    /// The state after the theme was switched; the config records its name.
    pub open spec fn theme_toggled(self) -> AppView {
        AppView {
            theme: flipped(self.theme),
            config: ConfigView { theme: theme_name(flipped(self.theme)), ..self.config },
            ..self
        }
    }

    /// The state after the current command was added to or removed from the favorites.
    pub open spec fn favorite_toggled(self) -> AppView {
        match self.current_command {
            Some(cmd) => AppView {
                config: ConfigView { favorites: toggled(self.config.favorites, cmd), ..self.config },
                ..self
            },
            None => self,
        }
    }

    /// The state once the current command and section were written into the config.
    pub open spec fn config_recorded(self) -> AppView {
        let last = match self.current_command {
            Some(cmd) => Some(cmd),
            None => self.config.last_command,
        };
        AppView {
            config: ConfigView {
                last_command: last,
                last_section: self.selected_section,
                ..self.config
            },
            ..self
        }
    }

    /// The selected command's page is not in the cache yet.
    pub open spec fn needs_fetch(self) -> bool {
        &&& 0 <= self.selected_index < self.filtered_commands.len()
        &&& !self.cache.dom().contains(
            page_key(self.filtered_commands[self.selected_index], self.selected_section),
        )
    }

    /// The selection points into the command list, or is 0 when the list is empty.
    pub open spec fn selection_in_range(self) -> bool {
        if self.filtered_commands.len() == 0 {
            self.selected_index == 0
        } else {
            0 <= self.selected_index < self.filtered_commands.len()
        }
    }

    /// A key whose handling would move the viewer past the largest offset.
    pub open spec fn key_overflows(self, key: Key) -> bool {
        self.focus == FocusState::Viewer && ((key == Key::Down && self.scroll_offset + 1
            > usize::MAX) || (key == Key::PageDown && self.scroll_offset + PAGE_STEP
            > usize::MAX))
    }

    /// The state after `key` and what the caller must do next; a changed
    /// search query is stamped with `stamp`.
    pub open spec fn on_key(self, key: Key, stamp: Option<Instant>) -> (AppView, KeyAction) {
        match self.focus {
            FocusState::Search => match key {
                Key::Char(c) => if c == 'q' {
                    (self, KeyAction::Quit)
                } else if c == 'l' {
                    (self.focused(FocusState::List), KeyAction::Continue)
                } else {
                    (self.searched(self.search_query.push(c), stamp), KeyAction::Continue)
                },
                Key::Backspace => (
                    self.searched(drop_last_char(self.search_query), stamp),
                    KeyAction::Continue,
                ),
                Key::Enter | Key::Tab | Key::Down | Key::Esc => (self.switched(), KeyAction::Continue),
                _ => (self, KeyAction::Continue),
            },
            FocusState::List => match key {
                Key::Char(c) => if c == 'q' {
                    (self, KeyAction::Quit)
                } else if c == '/' {
                    (self.focused(FocusState::Search), KeyAction::Continue)
                } else if c == 's' {
                    (self.section_select_focused(), KeyAction::Continue)
                } else if c == 't' {
                    (self.theme_toggled(), KeyAction::Continue)
                } else {
                    (self, KeyAction::Continue)
                },
                Key::Up => (self.moved_up(), KeyAction::Continue),
                Key::Down => (self.moved_down(), KeyAction::Continue),
                Key::Enter => (self, KeyAction::OpenPage),
                Key::Tab => (self.switched(), KeyAction::Continue),
                _ => (self, KeyAction::Continue),
            },
            FocusState::Viewer => match key {
                Key::Char(c) => if c == 'q' {
                    (self, KeyAction::Quit)
                } else if c == '/' {
                    (self.in_page_started(), KeyAction::Continue)
                } else if c == 'n' {
                    (self.next_matched(), KeyAction::Continue)
                } else if c == 'N' {
                    (self.prev_matched(), KeyAction::Continue)
                } else if c == 'f' {
                    (self.favorite_toggled(), KeyAction::Continue)
                } else if c == 't' {
                    (self.theme_toggled(), KeyAction::Continue)
                } else if c == 's' {
                    (self.section_select_focused(), KeyAction::Continue)
                } else if c == 'l' {
                    (self.focused(FocusState::List), KeyAction::Continue)
                } else {
                    (self, KeyAction::Continue)
                },
                Key::Up => (self.moved_up(), KeyAction::Continue),
                Key::Down => (self.moved_down(), KeyAction::Continue),
                Key::PageUp => (self.paged_up(), KeyAction::Continue),
                Key::PageDown => (self.paged_down(), KeyAction::Continue),
                Key::Tab => (self.switched(), KeyAction::Continue),
                _ => (self, KeyAction::Continue),
            },
            FocusState::InPageSearch => match key {
                Key::Char(c) => if c == 'q' {
                    (self, KeyAction::Quit)
                } else if c == 'l' {
                    (self.focused(FocusState::List), KeyAction::Continue)
                } else if c == 'n' {
                    (self.next_matched(), KeyAction::Continue)
                } else if c == 'N' {
                    (self.prev_matched(), KeyAction::Continue)
                } else {
                    (self.in_page_searched(self.in_page_search_query.push(c)), KeyAction::Continue)
                },
                Key::Backspace => (
                    self.in_page_searched(drop_last_char(self.in_page_search_query)),
                    KeyAction::Continue,
                ),
                Key::Enter => (self.switched(), KeyAction::Continue),
                Key::Esc => (self.in_page_cancelled(), KeyAction::Continue),
                _ => (self, KeyAction::Continue),
            },
            FocusState::SectionSelect => match key {
                Key::Char(c) => if c == 'q' {
                    (self, KeyAction::Quit)
                } else {
                    (self, KeyAction::Continue)
                },
                Key::Up => (self.moved_up(), KeyAction::Continue),
                Key::Down => (self.moved_down(), KeyAction::Continue),
                Key::Enter => (self, KeyAction::SelectSection),
                Key::Esc => (self.focused(FocusState::List), KeyAction::Continue),
                _ => (self, KeyAction::Continue),
            },
        }
    }
}

/// `s` without its last character, if it has one.
fn without_last_char(s: &String) -> (r: String)
    ensures
        r@ == drop_last_char(s@),
{
    let mut cs = chars_of(s.as_str());
    if cs.len() > 0 {
        cs.pop();
    }
    string_from_chars(cs.as_slice())
}

/// `s` with `c` appended.
fn with_char(s: &String, c: char) -> (r: String)
    ensures
        r@ == s@.push(c),
{
    let mut r = s.clone();
    r.push(c);
    r
}

impl App {
    /// The section the browser starts in: the saved one, else the first available.
    pub fn initial_section(config: &Config, available_sections: &Vec<u8>) -> (s: Option<u8>)
        ensures
            s == start_section(config.last_section, available_sections@),
    {
        match config.last_section {
            Some(sec) => Some(sec),
            None => if available_sections.len() > 0 {
                Some(available_sections[0])
            } else {
                None
            },
        }
    }

    /// The browser at start-up, given the saved config, the sections present
    /// and the commands of the section `initial_section` picks.
    pub fn new(config: Config, available_sections: Vec<u8>, all_commands: Vec<String>) -> (app: Self)
        ensures
            app@ == (AppView {
                search_query: Seq::empty(),
                all_commands: views(all_commands@),
                filtered_commands: views(all_commands@),
                selected_index: 0,
                man_content: Seq::empty(),
                scroll_offset: 0,
                focus: FocusState::Search,
                last_search_update: None,
                selected_section: start_section(config.last_section, available_sections@),
                available_sections: available_sections@,
                section_select_index: 0,
                in_page_search_query: Seq::empty(),
                in_page_search_matches: Seq::empty(),
                current_match_index: None,
                cache: Map::empty(),
                theme: theme_named(config@.theme),
                config: config@,
                current_command: None,
            }),
    {
        let theme = Theme::from_str(config.theme.as_str());
        let selected_section = Self::initial_section(&config, &available_sections);
        let filtered_commands = copy_strings(all_commands.as_slice());
        let app = App {
            search_query: String::new(),
            all_commands,
            filtered_commands,
            selected_index: 0,
            man_content: String::new(),
            scroll_offset: 0,
            focus: FocusState::Search,
            last_search_update: None,
            selected_section,
            available_sections,
            section_select_index: 0,
            in_page_search_query: String::new(),
            in_page_search_matches: Vec::new(),
            current_match_index: None,
            cache: PageCache::new(),
            theme,
            config,
            current_command: None,
        };
        assert(app@.in_page_search_matches =~= Seq::<int>::empty());
        app
    }

    /// Records a new search query; the list is filtered again once the query
    /// has rested (see `process_search_debounce`).
    pub fn update_search_query(&mut self, query: String)
        ensures
            final(self).last_search_update is Some,
            final(self)@ == old(self)@.searched(query@, final(self).last_search_update),
    {
        self.search_query = query;
        self.last_search_update = Some(now());
        self.selected_index = 0;
    }

    /// Runs a pending search when the query has rested for
    /// `SEARCH_DEBOUNCE_MILLIS`, given how long ago it last changed.
    pub fn apply_search_debounce(&mut self, elapsed_millis: u128)
        ensures
            old(self).last_search_update is Some && elapsed_millis >= SEARCH_DEBOUNCE_MILLIS ==> filter_result(
                old(self)@.search_query,
                old(self)@.all_commands,
                final(self)@.filtered_commands,
            ) && final(self)@ == old(self)@.refiltered(final(self)@.filtered_commands),
            !(old(self).last_search_update is Some && elapsed_millis >= SEARCH_DEBOUNCE_MILLIS)
                ==> final(self)@ == old(self)@,
    {
        if self.last_search_update.is_some() && elapsed_millis >= SEARCH_DEBOUNCE_MILLIS {
            self.filtered_commands = filter_commands(
                self.search_query.as_str(),
                self.all_commands.as_slice(),
            );
            if self.selected_index >= self.filtered_commands.len() && self.filtered_commands.len() > 0 {
                self.selected_index = self.filtered_commands.len() - 1;
            } else if self.filtered_commands.len() == 0 {
                self.selected_index = 0;
            }
            self.last_search_update = None;
        }
    }

    /// Runs a pending search once the query has rested long enough; the clock
    /// decides whether it runs now.
    pub fn process_search_debounce(&mut self)
        ensures
            final(self)@ == old(self)@ || (old(self).last_search_update is Some && filter_result(
                old(self)@.search_query,
                old(self)@.all_commands,
                final(self)@.filtered_commands,
            ) && final(self)@ == old(self)@.refiltered(final(self)@.filtered_commands)),
    {
        let elapsed = match &self.last_search_update {
            Some(since) => elapsed_millis(since),
            None => 0,
        };
        self.apply_search_debounce(elapsed);
    }

    /// Moves up in the focused pane: the command list, the page or the section list.
    pub fn move_selection_up(&mut self)
        ensures
            final(self)@ == old(self)@.moved_up(),
    {
        match self.focus {
            FocusState::List => {
                if self.filtered_commands.len() > 0 && self.selected_index > 0 {
                    self.selected_index = self.selected_index - 1;
                }
            },
            FocusState::Viewer => {
                if self.scroll_offset > 0 {
                    self.scroll_offset = self.scroll_offset - 1;
                }
            },
            FocusState::SectionSelect => {
                if self.section_select_index > 0 {
                    self.section_select_index = self.section_select_index - 1;
                }
            },
            _ => {},
        }
    }

    /// Moves down in the focused pane: the command list, the page or the section list.
    pub fn move_selection_down(&mut self)
        requires
            old(self).focus == FocusState::Viewer ==> old(self).scroll_offset < usize::MAX,
        ensures
            final(self)@ == old(self)@.moved_down(),
    {
        match self.focus {
            FocusState::List => {
                if self.filtered_commands.len() > 0 && self.selected_index
                    < self.filtered_commands.len() - 1 {
                    self.selected_index = self.selected_index + 1;
                }
            },
            FocusState::Viewer => {
                self.scroll_offset = self.scroll_offset + 1;
            },
            FocusState::SectionSelect => {
                if self.available_sections.len() > 0 && self.section_select_index
                    < self.available_sections.len() - 1 {
                    self.section_select_index = self.section_select_index + 1;
                }
            },
            _ => {},
        }
    }

    /// The command and section whose page must be fetched before
    /// `load_man_page` can show the selected command; `None` when nothing is
    /// selected or its page is in the cache.
    pub fn page_to_fetch(&self) -> (r: Option<(String, Option<u8>)>)
        ensures
            r is Some <==> self@.needs_fetch(),
            r matches Some(p) ==> p.0@ == self@.filtered_commands[self@.selected_index] && p.1
                == self.selected_section,
    {
        if self.selected_index < self.filtered_commands.len() {
            let cmd = &self.filtered_commands[self.selected_index];
            let key = cache_key(cmd, self.selected_section);
            match self.cache.get(&key) {
                Some(_) => None,
                None => Some((cmd.clone(), self.selected_section)),
            }
        } else {
            None
        }
    }

    /// Shows the page of the selected command: from the cache when it was
    /// loaded before, else `fetched`, which is then kept in the cache. The
    /// command goes to the front of the history. A fetch error is returned,
    /// the command having become the current one.
    pub fn load_man_page<E>(&mut self, fetched: Result<String, E>) -> (r: Result<(), E>)
        ensures
            old(self)@.selected_index >= old(self)@.filtered_commands.len() ==> r is Ok
                && final(self)@ == old(self)@,
            old(self)@.selected_index < old(self)@.filtered_commands.len() ==> ({
                let cmd = old(self)@.filtered_commands[old(self)@.selected_index];
                let key = page_key(cmd, old(self)@.selected_section);
                if old(self)@.cache.dom().contains(key) {
                    r is Ok && final(self)@ == old(self)@.page_shown(
                        cmd,
                        old(self)@.cache[key],
                        old(self)@.cache,
                    )
                } else {
                    match fetched {
                        Ok(content) => r is Ok && final(self)@ == old(self)@.page_shown(
                            cmd,
                            content@,
                            old(self)@.cache.insert(key, content@),
                        ),
                        Err(e) => r == Err::<(), E>(e) && final(self)@ == (AppView {
                            current_command: Some(cmd),
                            ..old(self)@
                        }),
                    }
                }
            }),
    {
        if self.selected_index >= self.filtered_commands.len() {
            return Ok(());
        }
        let cmd = self.filtered_commands[self.selected_index].clone();
        self.current_command = Some(cmd.clone());
        let key = cache_key(&cmd, self.selected_section);
        match self.cache.get(&key) {
            Some(cached) => {
                self.man_content = cached;
            },
            None => {
                match fetched {
                    Ok(content) => {
                        self.cache.insert(key, content.clone());
                        self.man_content = content;
                    },
                    Err(e) => {
                        return Err(e);
                    },
                }
            },
        }
        self.scroll_offset = 0;
        self.in_page_search_query = String::new();
        self.in_page_search_matches = Vec::new();
        self.current_match_index = None;
        self.config.add_to_history(cmd);
        assert(self@.in_page_search_matches =~= Seq::<int>::empty());
        Ok(())
    }

    /// Moves the focus on: search, list, viewer, and back to search; the
    /// section selector returns to the list and the in-page search to the viewer.
    pub fn switch_focus(&mut self)
        ensures
            final(self)@ == old(self)@.switched(),
    {
        self.focus = match self.focus {
            FocusState::Search => FocusState::List,
            FocusState::List => FocusState::Viewer,
            FocusState::Viewer => FocusState::Search,
            FocusState::SectionSelect => FocusState::List,
            FocusState::InPageSearch => FocusState::Viewer,
        };
    }

    /// Gives the keys to the search box.
    pub fn focus_search(&mut self)
        ensures
            final(self)@ == old(self)@.focused(FocusState::Search),
    {
        self.focus = FocusState::Search;
    }

    /// Gives the keys to the command list.
    pub fn focus_list(&mut self)
        ensures
            final(self)@ == old(self)@.focused(FocusState::List),
    {
        self.focus = FocusState::List;
    }

    /// Opens the section selector on the current section.
    pub fn focus_section_select(&mut self)
        ensures
            final(self)@ == old(self)@.section_select_focused(),
    {
        self.focus = FocusState::SectionSelect;
        match self.selected_section {
            Some(selected) => match position_u8(&self.available_sections, selected) {
                Some(idx) => {
                    self.section_select_index = idx;
                },
                None => {},
            },
            None => {},
        }
    }

    /// The section that `select_section` would switch to: the one under the
    /// selector, if the selector is on one.
    pub fn section_to_select(&self) -> (r: Option<u8>)
        ensures
            r == (if 0 <= self@.section_select_index < self@.available_sections.len() {
                Some(self@.available_sections[self@.section_select_index])
            } else {
                None
            }),
    {
        if self.section_select_index < self.available_sections.len() {
            Some(self.available_sections[self.section_select_index])
        } else {
            None
        }
    }

    /// Switches to the section under the selector, whose commands are
    /// `discovered`: the list is searched again with the current query and the
    /// focus returns to it. A discovery error is returned, the section having
    /// been selected.
    pub fn select_section<E>(&mut self, discovered: Result<Vec<String>, E>) -> (r: Result<(), E>)
        ensures
            old(self)@.section_select_index >= old(self)@.available_sections.len() ==> r is Ok
                && final(self)@ == old(self)@,
            old(self)@.section_select_index < old(self)@.available_sections.len() ==> ({
                let sec = old(self)@.available_sections[old(self)@.section_select_index];
                match discovered {
                    Ok(cmds) => r is Ok && filter_result(
                        old(self)@.search_query,
                        views(cmds@),
                        final(self)@.filtered_commands,
                    ) && final(self)@ == (AppView {
                        selected_section: Some(sec),
                        all_commands: views(cmds@),
                        filtered_commands: final(self)@.filtered_commands,
                        selected_index: 0,
                        focus: FocusState::List,
                        ..old(self)@
                    }),
                    Err(e) => r == Err::<(), E>(e) && final(self)@ == (AppView {
                        selected_section: Some(sec),
                        ..old(self)@
                    }),
                }
            }),
    {
        if self.section_select_index >= self.available_sections.len() {
            return Ok(());
        }
        let section = self.available_sections[self.section_select_index];
        self.selected_section = Some(section);
        match discovered {
            Ok(cmds) => {
                self.all_commands = cmds;
                self.filtered_commands = filter_commands(
                    self.search_query.as_str(),
                    self.all_commands.as_slice(),
                );
                self.selected_index = 0;
                self.focus = FocusState::List;
                Ok(())
            },
            Err(e) => Err(e),
        }
    }

    /// Starts a search inside the page, with an empty query.
    pub fn start_in_page_search(&mut self)
        ensures
            final(self)@ == old(self)@.in_page_started(),
    {
        self.focus = FocusState::InPageSearch;
        self.in_page_search_query = String::new();
        self.in_page_search_matches = Vec::new();
        self.current_match_index = None;
        assert(self@.in_page_search_matches =~= Seq::<int>::empty());
    }

    /// Leaves the in-page search, forgetting its query and matches.
    pub fn cancel_in_page_search(&mut self)
        ensures
            final(self)@ == old(self)@.in_page_cancelled(),
    {
        self.focus = FocusState::Viewer;
        self.in_page_search_query = String::new();
        self.in_page_search_matches = Vec::new();
        self.current_match_index = None;
        assert(self@.in_page_search_matches =~= Seq::<int>::empty());
    }

    /// Sets the in-page query and finds the lines that contain it, ignoring case.
    pub fn update_in_page_search(&mut self, query: String)
        ensures
            final(self)@ == old(self)@.in_page_searched(query@),
    {
        self.in_page_search_query = query;
        self.find_in_page_matches();
    }

    fn find_in_page_matches(&mut self)
        ensures
            final(self)@ == old(self)@.with_matches(),
    {
        if self.in_page_search_query.as_str().is_empty() {
            self.in_page_search_matches = Vec::new();
            self.current_match_index = None;
            assert(self@.in_page_search_matches =~= Seq::<int>::empty());
            return ;
        }
        let lowered_query = to_lowercase(self.in_page_search_query.as_str());
        let needle = chars_of(lowered_query.as_str());
        let content = chars_of(self.man_content.as_str());
        let lines = split_lines(content.as_slice());
        let ghost all_lines = lines.deep_view();
        let mut matches: Vec<usize> = Vec::new();
        let mut idx: usize = 0;
        while idx < lines.len()
            invariant
                idx <= lines@.len(),
                all_lines == lines.deep_view(),
                matches@.map_values(|i: usize| i as int) == matching_lines(
                    all_lines.take(idx as int),
                    needle@,
                ),
            decreases lines@.len() - idx,
        {
            let line = string_from_chars(lines[idx].as_slice());
            let lowered = to_lowercase(line.as_str());
            let lowered_chars = chars_of(lowered.as_str());
            let ghost before = matches@;
            proof {
                assert(all_lines[idx as int] == lines@[idx as int]@);
                assert(all_lines.take(idx + 1).drop_last() =~= all_lines.take(idx as int));
            }
            if contains_chars(lowered_chars.as_slice(), needle.as_slice()) {
                matches.push(idx);
                assert(matches@.map_values(|i: usize| i as int) =~= before.map_values(
                    |i: usize| i as int,
                ).push(idx as int));
            }
            idx = idx + 1;
        }
        proof {
            assert(all_lines.take(idx as int) =~= all_lines);
        }
        self.in_page_search_matches = matches;
        if self.in_page_search_matches.len() > 0 {
            self.current_match_index = Some(0);
            let first = self.in_page_search_matches[0];
            self.scroll_offset = if first >= MATCH_CONTEXT {
                first - MATCH_CONTEXT
            } else {
                0
            };
        } else {
            self.current_match_index = None;
        }
    }

    /// Moves to the next in-page match and scrolls to it.
    pub fn next_match(&mut self)
        ensures
            final(self)@ == old(self)@.next_matched(),
    {
        match self.current_match_index {
            Some(current) => {
                if self.in_page_search_matches.len() > 0 && current
                    < self.in_page_search_matches.len() - 1 {
                    self.current_match_index = Some(current + 1);
                    let line = self.in_page_search_matches[current + 1];
                    self.scroll_offset = if line >= MATCH_CONTEXT {
                        line - MATCH_CONTEXT
                    } else {
                        0
                    };
                }
            },
            None => {},
        }
    }

    /// Moves to the previous in-page match and scrolls to it.
    pub fn prev_match(&mut self)
        ensures
            final(self)@ == old(self)@.prev_matched(),
    {
        match self.current_match_index {
            Some(current) => {
                if current > 0 {
                    self.current_match_index = Some(current - 1);
                    if current - 1 < self.in_page_search_matches.len() {
                        let line = self.in_page_search_matches[current - 1];
                        self.scroll_offset = if line >= MATCH_CONTEXT {
                            line - MATCH_CONTEXT
                        } else {
                            0
                        };
                    }
                }
            },
            None => {},
        }
    }

    /// Scrolls the viewer one page up.
    pub fn scroll_viewer_page_up(&mut self)
        ensures
            final(self)@ == old(self)@.paged_up(),
    {
        if self.focus == FocusState::Viewer {
            self.scroll_offset = if self.scroll_offset >= PAGE_STEP {
                self.scroll_offset - PAGE_STEP
            } else {
                0
            };
        }
    }

    /// Scrolls the viewer one page down.
    pub fn scroll_viewer_page_down(&mut self)
        requires
            old(self).focus == FocusState::Viewer ==> old(self).scroll_offset + PAGE_STEP <= usize::MAX,
        ensures
            final(self)@ == old(self)@.paged_down(),
    {
        if self.focus == FocusState::Viewer {
            self.scroll_offset = self.scroll_offset + PAGE_STEP;
        }
    }

    /// Switches between the dark and the light theme.
    pub fn toggle_theme(&mut self)
        ensures
            final(self)@ == old(self)@.theme_toggled(),
    {
        self.theme = match self.theme {
            Theme::Dark => Theme::Light,
            Theme::Light => Theme::Dark,
        };
        self.config.theme = String::from_str(self.theme.to_str());
    }

    /// Adds the current command to the favorites, or removes it.
    pub fn toggle_favorite(&mut self)
        ensures
            final(self)@ == old(self)@.favorite_toggled(),
    {
        match &self.current_command {
            Some(cmd) => {
                let c = cmd.clone();
                let _added = self.config.toggle_favorite(c);
            },
            None => {},
        }
    }

    /// Whether the current command is a favorite.
    pub fn is_favorite(&self) -> (r: bool)
        ensures
            r == match self@.current_command {
                Some(cmd) => self@.config.favorites.contains(cmd),
                None => false,
            },
    {
        match &self.current_command {
            Some(cmd) => self.config.is_favorite(cmd.as_str()),
            None => false,
        }
    }

    /// The lines of the page that the viewer shows in `rows` rows, from the
    /// scroll position on.
    pub fn viewer_lines(&self, rows: usize) -> (shown: Vec<String>)
        ensures
            views(shown@) == window(text_lines(self@.man_content), self@.scroll_offset, rows as int),
    {
        let content = chars_of(self.man_content.as_str());
        let lines = split_lines(content.as_slice());
        let ghost all = lines.deep_view();
        let mut shown: Vec<String> = Vec::new();
        let mut i: usize = self.scroll_offset;
        while i < lines.len() && shown.len() < rows
            invariant
                all == lines.deep_view(),
                all == text_lines(self@.man_content),
                self.scroll_offset <= i,
                i <= self.scroll_offset + rows,
                shown@.len() == i - self.scroll_offset,
                shown@.len() > 0 ==> i <= all.len(),
                lines@.len() == all.len(),
                forall|k: int| 0 <= k < shown@.len() ==> #[trigger] shown@[k]@ == all[self.scroll_offset + k],
            decreases lines@.len() - i,
        {
            let line = string_from_chars(lines[i].as_slice());
            assert(all[i as int] == lines@[i as int]@);
            shown.push(line);
            i = i + 1;
        }
        assert(views(shown@) =~= window(all, self@.scroll_offset, rows as int));
        shown
    }

    /// Takes one key in the current focus and says what the caller must do
    /// next: quit, fetch the selected page for `load_man_page`, or discover the
    /// commands of the chosen section for `select_section`.
    pub fn handle_key(&mut self, key: Key) -> (action: KeyAction)
        requires
            !old(self)@.key_overflows(key),
        ensures
            (final(self)@, action) == old(self)@.on_key(key, final(self).last_search_update),
    {
        match self.focus {
            FocusState::Search => match key {
                Key::Char(c) => {
                    if c == 'q' {
                        KeyAction::Quit
                    } else if c == 'l' {
                        self.focus_list();
                        KeyAction::Continue
                    } else {
                        let q = with_char(&self.search_query, c);
                        self.update_search_query(q);
                        KeyAction::Continue
                    }
                },
                Key::Backspace => {
                    let q = without_last_char(&self.search_query);
                    self.update_search_query(q);
                    KeyAction::Continue
                },
                Key::Enter | Key::Tab | Key::Down | Key::Esc => {
                    self.switch_focus();
                    KeyAction::Continue
                },
                _ => KeyAction::Continue,
            },
            FocusState::List => match key {
                Key::Char(c) => {
                    if c == 'q' {
                        KeyAction::Quit
                    } else if c == '/' {
                        self.focus_search();
                        KeyAction::Continue
                    } else if c == 's' {
                        self.focus_section_select();
                        KeyAction::Continue
                    } else if c == 't' {
                        self.toggle_theme();
                        KeyAction::Continue
                    } else {
                        KeyAction::Continue
                    }
                },
                Key::Up => {
                    self.move_selection_up();
                    KeyAction::Continue
                },
                Key::Down => {
                    self.move_selection_down();
                    KeyAction::Continue
                },
                Key::Enter => KeyAction::OpenPage,
                Key::Tab => {
                    self.switch_focus();
                    KeyAction::Continue
                },
                _ => KeyAction::Continue,
            },
            FocusState::Viewer => match key {
                Key::Char(c) => {
                    if c == 'q' {
                        KeyAction::Quit
                    } else if c == '/' {
                        self.start_in_page_search();
                        KeyAction::Continue
                    } else if c == 'n' {
                        self.next_match();
                        KeyAction::Continue
                    } else if c == 'N' {
                        self.prev_match();
                        KeyAction::Continue
                    } else if c == 'f' {
                        self.toggle_favorite();
                        KeyAction::Continue
                    } else if c == 't' {
                        self.toggle_theme();
                        KeyAction::Continue
                    } else if c == 's' {
                        self.focus_section_select();
                        KeyAction::Continue
                    } else if c == 'l' {
                        self.focus_list();
                        KeyAction::Continue
                    } else {
                        KeyAction::Continue
                    }
                },
                Key::Up => {
                    self.move_selection_up();
                    KeyAction::Continue
                },
                Key::Down => {
                    self.move_selection_down();
                    KeyAction::Continue
                },
                Key::PageUp => {
                    self.scroll_viewer_page_up();
                    KeyAction::Continue
                },
                Key::PageDown => {
                    self.scroll_viewer_page_down();
                    KeyAction::Continue
                },
                Key::Tab => {
                    self.switch_focus();
                    KeyAction::Continue
                },
                _ => KeyAction::Continue,
            },
            FocusState::InPageSearch => match key {
                Key::Char(c) => {
                    if c == 'q' {
                        KeyAction::Quit
                    } else if c == 'l' {
                        self.focus_list();
                        KeyAction::Continue
                    } else if c == 'n' {
                        self.next_match();
                        KeyAction::Continue
                    } else if c == 'N' {
                        self.prev_match();
                        KeyAction::Continue
                    } else {
                        let q = with_char(&self.in_page_search_query, c);
                        self.update_in_page_search(q);
                        KeyAction::Continue
                    }
                },
                Key::Backspace => {
                    let q = without_last_char(&self.in_page_search_query);
                    self.update_in_page_search(q);
                    KeyAction::Continue
                },
                Key::Enter => {
                    self.switch_focus();
                    KeyAction::Continue
                },
                Key::Esc => {
                    self.cancel_in_page_search();
                    KeyAction::Continue
                },
                _ => KeyAction::Continue,
            },
            FocusState::SectionSelect => match key {
                Key::Char(c) => {
                    if c == 'q' {
                        KeyAction::Quit
                    } else {
                        KeyAction::Continue
                    }
                },
                Key::Up => {
                    self.move_selection_up();
                    KeyAction::Continue
                },
                Key::Down => {
                    self.move_selection_down();
                    KeyAction::Continue
                },
                Key::Enter => KeyAction::SelectSection,
                Key::Esc => {
                    self.focus_list();
                    KeyAction::Continue
                },
                _ => KeyAction::Continue,
            },
        }
    }

    /// Writes the current command and section into the config, ready to be saved.
    pub fn save_config(&mut self)
        ensures
            final(self)@ == old(self)@.config_recorded(),
    {
        match &self.current_command {
            Some(cmd) => {
                self.config.last_command = Some(cmd.clone());
            },
            None => {},
        }
        self.config.last_section = self.selected_section;
    }
}

/// The lines of `lines` from `start` on, at most `rows` of them.
pub open spec fn window(lines: Seq<Seq<char>>, start: int, rows: int) -> Seq<Seq<char>> {
    let avail = lines.len() - start;
    let n = if avail <= 0 {
        0
    } else if rows < avail {
        rows
    } else {
        avail
    };
    Seq::new(n as nat, |i: int| lines[start + i])
}

/// The position of the first `x` in `s`, if any.
fn position_u8(s: &Vec<u8>, x: u8) -> (r: Option<usize>)
    ensures
        match r {
            Some(i) => s@.contains(x) && i as int == first_u8_position(s@, x),
            None => !s@.contains(x),
        },
{
    let mut i: usize = 0;
    while i < s.len()
        invariant
            i <= s@.len(),
            forall|j: int| 0 <= j < i ==> s@[j] != x,
        decreases s@.len() - i,
    {
        if s[i] == x {
            proof {
                lemma_first_u8_position(s@, x, i as int);
            }
            return Some(i);
        }
        i = i + 1;
    }
    None
}

proof fn lemma_first_u8_position(s: Seq<u8>, x: u8, i: int)
    requires
        0 <= i < s.len(),
        s[i] == x,
        forall|j: int| 0 <= j < i ==> s[j] != x,
    ensures
        first_u8_position(s, x) == i,
        s.contains(x),
    decreases i,
{
    if i > 0 {
        lemma_first_u8_position(s.drop_first(), x, i - 1);
    }
}

/// Tab visits the search box, the list and the viewer in turn, coming back
/// to where it started after three presses.
pub proof fn lemma_tab_cycles(v: AppView)
    requires
        v.focus == FocusState::Search || v.focus == FocusState::List || v.focus
            == FocusState::Viewer,
    ensures
        v.switched().switched().switched() == v,
        v.switched().focus != v.focus,
{
}

/// `q` quits from every focus and changes nothing.
pub proof fn lemma_q_quits(v: AppView, stamp: Option<Instant>)
    ensures
        v.on_key(Key::Char('q'), stamp) == (v, KeyAction::Quit),
{
}

/// A saved theme name reads back as the same theme, and switching the theme
/// twice gives back the theme and its saved name.
pub proof fn lemma_theme_round_trip(v: AppView)
    requires
        v.config.theme == theme_name(v.theme),
    ensures
        theme_named(theme_name(v.theme)) == v.theme,
        v.theme_toggled().config.theme == theme_name(v.theme_toggled().theme),
        v.theme_toggled().theme != v.theme,
        v.theme_toggled().theme_toggled() == v,
{
    reveal_strlit("light");
    reveal_strlit("dark");
    assert("dark"@ != "light"@) by {
        assert("dark"@.len() != "light"@.len());
    }
    assert(v.theme_toggled().theme_toggled().config =~= v.config);
}

/// Once a fetched page was shown, its command needs no new fetch: opening it
/// again takes the same text from the cache.
pub proof fn lemma_shown_page_is_cached(v: AppView, content: Seq<char>)
    requires
        0 <= v.selected_index < v.filtered_commands.len(),
    ensures
        ({
            let cmd = v.filtered_commands[v.selected_index];
            let key = page_key(cmd, v.selected_section);
            let w = v.page_shown(cmd, content, v.cache.insert(key, content));
            &&& !w.needs_fetch()
            &&& w.cache[key] == content
        }),
{
}

/// Running a pending search leaves the selection inside the new list.
pub proof fn lemma_refilter_keeps_selection_in_range(v: AppView, filtered: Seq<Seq<char>>)
    requires
        v.selected_index >= 0,
    ensures
        v.refiltered(filtered).selection_in_range(),
{
}

/// Moving up or down keeps the selection inside the list.
pub proof fn lemma_moves_keep_selection_in_range(v: AppView)
    requires
        v.selection_in_range(),
    ensures
        v.moved_up().selection_in_range(),
        v.moved_down().selection_in_range(),
{
}

/// The in-page matches are exactly the lines whose lower-case form contains
/// the lower-case query, in increasing order.
pub proof fn lemma_matching_lines(lines: Seq<Seq<char>>, needle: Seq<char>)
    ensures
        forall|k: int|
            0 <= k < matching_lines(lines, needle).len() ==> 0 <= #[trigger] matching_lines(
                lines,
                needle,
            )[k] < lines.len() && has_substring(
                lowercase(lines[matching_lines(lines, needle)[k]]),
                needle,
            ),
        forall|a: int, b: int|
            0 <= a < b < matching_lines(lines, needle).len() ==> #[trigger] matching_lines(
                lines,
                needle,
            )[a] < #[trigger] matching_lines(lines, needle)[b],
        forall|i: int|
            0 <= i < lines.len() && has_substring(lowercase(#[trigger] lines[i]), needle)
                ==> matching_lines(lines, needle).contains(i),
    decreases lines.len(),
{
    if lines.len() > 0 {
        let init = lines.drop_last();
        lemma_matching_lines(init, needle);
        let r = matching_lines(init, needle);
        let m = matching_lines(lines, needle);
        assert forall|k: int| 0 <= k < m.len() implies 0 <= #[trigger] m[k] < lines.len()
            && has_substring(lowercase(lines[m[k]]), needle) by {
            if k < r.len() {
                assert(m[k] == r[k]);
                assert(init[r[k]] == lines[r[k]]);
            }
        }
        assert forall|i: int|
            0 <= i < lines.len() && has_substring(lowercase(#[trigger] lines[i]), needle) implies m.contains(i) by {
            if i < init.len() {
                assert(init[i] == lines[i]);
                assert(r.contains(i));
                let k = choose|k: int| 0 <= k < r.len() && r[k] == i;
                assert(m[k] == i);
            } else {
                assert(m[m.len() - 1] == i);
            }
        }
    }
}

/// After moving to the next match, moving back returns to the match before
/// and scrolls to it again.
pub proof fn lemma_next_then_prev(v: AppView, c: int)
    requires
        v.current_match_index == Some(c),
        0 <= c,
        c + 1 < v.in_page_search_matches.len(),
    ensures
        v.next_matched().prev_matched().current_match_index == Some(c),
        v.next_matched().prev_matched().scroll_offset == sat_sub(
            v.in_page_search_matches[c],
            MATCH_CONTEXT as int,
        ),
{
}

/// An in-page search for a non-empty query finds exactly the lines of the
/// page whose lower-case form contains the lower-case query, in page order;
/// it selects the first of them and scrolls to just above it, or selects
/// nothing when there is none. An empty query finds nothing.
pub proof fn lemma_in_page_search_finds_matching_lines(v: AppView, query: Seq<char>, w: AppView)
    requires
        w == v.in_page_searched(query),
    ensures
        w.in_page_search_query == query,
        w.man_content == v.man_content,
        w.focus == v.focus,
        query.len() == 0 ==> w.in_page_search_matches.len() == 0,
        query.len() == 0 ==> w.current_match_index == None::<int>,
        query.len() > 0 ==> forall|k: int|
            0 <= k < w.in_page_search_matches.len() ==> 0 <= #[trigger] w.in_page_search_matches[k]
                < text_lines(v.man_content).len(),
        query.len() > 0 ==> forall|k: int|
            0 <= k < w.in_page_search_matches.len() ==> has_substring(
                lowercase(text_lines(v.man_content)[#[trigger] w.in_page_search_matches[k]]),
                lowercase(query),
            ),
        query.len() > 0 ==> forall|i: int|
            0 <= i < text_lines(v.man_content).len() && has_substring(
                lowercase(#[trigger] text_lines(v.man_content)[i]),
                lowercase(query),
            ) ==> w.in_page_search_matches.contains(i),
        forall|a: int, b: int|
            0 <= a < b < w.in_page_search_matches.len() ==> #[trigger] w.in_page_search_matches[a]
                < #[trigger] w.in_page_search_matches[b],
        w.in_page_search_matches.len() > 0 ==> w.current_match_index == Some(0int),
        w.in_page_search_matches.len() > 0 && w.in_page_search_matches[0] >= 5
            ==> w.scroll_offset == w.in_page_search_matches[0] - 5,
        w.in_page_search_matches.len() > 0 && w.in_page_search_matches[0] < 5
            ==> w.scroll_offset == 0,
        w.in_page_search_matches.len() == 0 ==> w.current_match_index == None::<int>,
        w.in_page_search_matches.len() == 0 ==> w.scroll_offset == v.scroll_offset,
{
    if query.len() > 0 {
        lemma_matching_lines(text_lines(v.man_content), lowercase(query));
    }
}

/// Keys in the command list: `/` goes to the search box, Tab to the viewer,
/// Enter asks for the selected page, `s` opens the section selector and `t`
/// switches the theme; nothing else changes.
pub proof fn lemma_list_keys(v: AppView, stamp: Option<Instant>)
    requires
        v.focus == FocusState::List,
    ensures
        v.on_key(Key::Char('/'), stamp) == ((AppView { focus: FocusState::Search, ..v }), KeyAction::Continue),
        v.on_key(Key::Tab, stamp) == ((AppView { focus: FocusState::Viewer, ..v }), KeyAction::Continue),
        v.on_key(Key::Enter, stamp) == (v, KeyAction::OpenPage),
        v.on_key(Key::Char('s'), stamp).0.focus == FocusState::SectionSelect,
        v.on_key(Key::Char('t'), stamp).0.theme != v.theme,
{
}

/// Keys in the search box: Tab, Enter, Down and Esc go to the list, and any
/// other character than `q` and `l` is appended to the query, which restarts
/// the selection and stamps the query.
pub proof fn lemma_search_keys(v: AppView, stamp: Option<Instant>, c: char)
    requires
        v.focus == FocusState::Search,
        c != 'q',
        c != 'l',
    ensures
        v.on_key(Key::Tab, stamp) == ((AppView { focus: FocusState::List, ..v }), KeyAction::Continue),
        v.on_key(Key::Enter, stamp) == v.on_key(Key::Tab, stamp),
        v.on_key(Key::Down, stamp) == v.on_key(Key::Tab, stamp),
        v.on_key(Key::Esc, stamp) == v.on_key(Key::Tab, stamp),
        v.on_key(Key::Char(c), stamp).1 == KeyAction::Continue,
        v.on_key(Key::Char(c), stamp).0 == (AppView {
            search_query: v.search_query.push(c),
            selected_index: 0,
            last_search_update: stamp,
            ..v
        }),
{
}

/// Keys in the viewer: Tab goes to the search box, `/` starts an empty
/// in-page search, `l` goes to the list, `s` to the section selector, and
/// Up and Down scroll by one line.
pub proof fn lemma_viewer_keys(v: AppView, stamp: Option<Instant>)
    requires
        v.focus == FocusState::Viewer,
    ensures
        v.on_key(Key::Tab, stamp) == ((AppView { focus: FocusState::Search, ..v }), KeyAction::Continue),
        v.on_key(Key::Char('/'), stamp).0 == (AppView {
            focus: FocusState::InPageSearch,
            in_page_search_query: Seq::empty(),
            in_page_search_matches: Seq::empty(),
            current_match_index: None,
            ..v
        }),
        v.on_key(Key::Char('l'), stamp) == ((AppView { focus: FocusState::List, ..v }), KeyAction::Continue),
        v.on_key(Key::Char('s'), stamp).0.focus == FocusState::SectionSelect,
        v.scroll_offset > 0 ==> v.on_key(Key::Up, stamp).0 == (AppView { scroll_offset: v.scroll_offset - 1, ..v }),
        v.on_key(Key::Down, stamp).0 == (AppView { scroll_offset: v.scroll_offset + 1, ..v }),
{
}

/// Keys in the in-page search and the section selector: Enter returns to the
/// viewer or asks for the chosen section's commands, Esc cancels the search
/// or returns to the list, `l` goes to the list.
pub proof fn lemma_search_and_section_keys(v: AppView, stamp: Option<Instant>)
    ensures
        v.focus == FocusState::InPageSearch ==> v.on_key(Key::Enter, stamp) == ((AppView {
            focus: FocusState::Viewer,
            ..v
        }), KeyAction::Continue),
        v.focus == FocusState::InPageSearch ==> v.on_key(Key::Esc, stamp).0.focus == FocusState::Viewer,
        v.focus == FocusState::InPageSearch ==> v.on_key(Key::Esc, stamp).0.in_page_search_query.len() == 0,
        v.focus == FocusState::InPageSearch ==> v.on_key(Key::Char('l'), stamp).0.focus == FocusState::List,
        v.focus == FocusState::SectionSelect ==> v.on_key(Key::Enter, stamp) == (v, KeyAction::SelectSection),
        v.focus == FocusState::SectionSelect ==> v.on_key(Key::Esc, stamp) == ((AppView {
            focus: FocusState::List,
            ..v
        }), KeyAction::Continue),
{
}

} // verus!
