use man_tui::app::{App, FocusState, Key, KeyAction, Theme};
use man_tui::cache::{cache_key, PageCache};
use man_tui::config::Config;

fn strings(v: &[&str]) -> Vec<String> {
    v.iter().map(|s| s.to_string()).collect()
}

fn app_with(cmds: &[&str]) -> App {
    App::new(Config::default(), vec![1, 5, 8], strings(cmds))
}

fn type_str(app: &mut App, s: &str) {
    for c in s.chars() {
        assert_eq!(app.handle_key(Key::Char(c)), KeyAction::Continue);
    }
}

fn open_page(app: &mut App, text: &str) {
    let fetched: Result<String, String> = Ok(text.to_string());
    app.load_man_page(fetched).unwrap();
}

#[test]
fn theme_names_round_trip() {
    assert_eq!(Theme::from_str("light"), Theme::Light);
    assert_eq!(Theme::from_str("dark"), Theme::Dark);
    assert_eq!(Theme::from_str(""), Theme::Dark);
    assert_eq!(Theme::from_str("Light"), Theme::Dark);
    assert_eq!(Theme::Light.to_str(), "light");
    assert_eq!(Theme::Dark.to_str(), "dark");
    assert_eq!(Theme::from_str(Theme::Light.to_str()), Theme::Light);
}

#[test]
fn new_app_starts_in_search_with_all_commands() {
    let app = app_with(&["ls", "cat"]);
    assert_eq!(app.focus, FocusState::Search);
    assert_eq!(app.filtered_commands, strings(&["ls", "cat"]));
    assert_eq!(app.all_commands, strings(&["ls", "cat"]));
    assert_eq!(app.selected_section, Some(1));
    assert_eq!(app.theme, Theme::Dark);
    assert!(app.last_search_update.is_none());
    assert_eq!(app.current_command, None);
}

#[test]
fn saved_section_and_theme_are_used() {
    let mut config = Config::default();
    config.last_section = Some(8);
    config.theme = "light".to_string();
    assert_eq!(App::initial_section(&config, &vec![1, 8]), Some(8));
    let app = App::new(config, vec![1, 8], vec![]);
    assert_eq!(app.selected_section, Some(8));
    assert_eq!(app.theme, Theme::Light);
}

#[test]
fn no_sections_means_no_section() {
    assert_eq!(App::initial_section(&Config::default(), &vec![]), None);
    assert_eq!(App::initial_section(&Config::default(), &vec![3, 1]), Some(3));
}

#[test]
fn typing_updates_query_and_waits_for_debounce() {
    let mut app = app_with(&["grep", "ls", "egrep"]);
    app.selected_index = 2;
    type_str(&mut app, "gre");
    assert_eq!(app.search_query, "gre");
    assert_eq!(app.selected_index, 0);
    assert!(app.last_search_update.is_some());
    assert_eq!(app.filtered_commands.len(), 3);
    app.apply_search_debounce(10);
    assert_eq!(app.filtered_commands.len(), 3);
    assert!(app.last_search_update.is_some());
    app.apply_search_debounce(150);
    assert!(app.last_search_update.is_none());
    assert_eq!(app.filtered_commands.len(), 2);
    assert!(!app.filtered_commands.contains(&"ls".to_string()));
}

#[test]
fn debounce_without_pending_search_does_nothing() {
    let mut app = app_with(&["a", "b"]);
    app.search_query = "zzz".to_string();
    app.apply_search_debounce(1000);
    app.process_search_debounce();
    assert_eq!(app.filtered_commands, strings(&["a", "b"]));
}

#[test]
fn debounce_keeps_selection_in_range() {
    let mut app = app_with(&["grep", "ls", "egrep"]);
    app.update_search_query("grep".to_string());
    app.selected_index = 2;
    app.apply_search_debounce(200);
    assert_eq!(app.selected_index, 1);
    app.update_search_query("qqqq".to_string());
    app.apply_search_debounce(200);
    assert!(app.filtered_commands.is_empty());
    assert_eq!(app.selected_index, 0);
}

#[test]
fn backspace_removes_last_char() {
    let mut app = app_with(&["a"]);
    type_str(&mut app, "ab");
    app.handle_key(Key::Backspace);
    assert_eq!(app.search_query, "a");
    app.handle_key(Key::Backspace);
    app.handle_key(Key::Backspace);
    assert_eq!(app.search_query, "");
}

#[test]
fn tab_cycles_search_list_viewer() {
    let mut app = app_with(&["a"]);
    app.handle_key(Key::Tab);
    assert_eq!(app.focus, FocusState::List);
    app.handle_key(Key::Tab);
    assert_eq!(app.focus, FocusState::Viewer);
    app.handle_key(Key::Tab);
    assert_eq!(app.focus, FocusState::Search);
}

#[test]
fn enter_down_and_esc_leave_search() {
    for k in [Key::Enter, Key::Down, Key::Esc] {
        let mut app = app_with(&["a"]);
        app.handle_key(k);
        assert_eq!(app.focus, FocusState::List);
    }
}

#[test]
fn q_quits_from_every_focus() {
    for f in [
        FocusState::Search,
        FocusState::List,
        FocusState::Viewer,
        FocusState::SectionSelect,
        FocusState::InPageSearch,
    ] {
        let mut app = app_with(&["a"]);
        app.focus = f;
        assert_eq!(app.handle_key(Key::Char('q')), KeyAction::Quit);
        assert_eq!(app.focus, f);
    }
}

#[test]
fn list_moves_stay_in_range() {
    let mut app = app_with(&["a", "b", "c"]);
    app.focus = FocusState::List;
    app.handle_key(Key::Up);
    assert_eq!(app.selected_index, 0);
    app.handle_key(Key::Down);
    app.handle_key(Key::Down);
    app.handle_key(Key::Down);
    assert_eq!(app.selected_index, 2);
    app.move_selection_up();
    assert_eq!(app.selected_index, 1);
}

#[test]
fn enter_in_list_asks_for_the_page() {
    let mut app = app_with(&["ls", "cat"]);
    app.focus = FocusState::List;
    app.handle_key(Key::Down);
    assert_eq!(app.handle_key(Key::Enter), KeyAction::OpenPage);
    assert_eq!(app.page_to_fetch(), Some(("cat".to_string(), Some(1))));
}

#[test]
fn loading_shows_page_records_history_and_caches() {
    let mut app = app_with(&["ls", "cat"]);
    app.scroll_offset = 7;
    app.in_page_search_query = "x".to_string();
    open_page(&mut app, "LS(1)\nNAME\n");
    assert_eq!(app.man_content, "LS(1)\nNAME\n");
    assert_eq!(app.current_command, Some("ls".to_string()));
    assert_eq!(app.config.history, strings(&["ls"]));
    assert_eq!(app.scroll_offset, 0);
    assert_eq!(app.in_page_search_query, "");
    assert_eq!(app.page_to_fetch(), None);
    // A second visit takes the cached text and ignores a fetch result.
    app.man_content = String::new();
    let again: Result<String, String> = Err("unused".to_string());
    assert!(app.load_man_page(again).is_ok());
    assert_eq!(app.man_content, "LS(1)\nNAME\n");
}

#[test]
fn fetch_error_is_returned() {
    let mut app = app_with(&["ls"]);
    let failed: Result<String, String> = Err("boom".to_string());
    assert_eq!(app.load_man_page(failed), Err("boom".to_string()));
    assert_eq!(app.current_command, Some("ls".to_string()));
    assert!(app.config.history.is_empty());
    assert_eq!(app.man_content, "");
}

#[test]
fn loading_with_nothing_selected_does_nothing() {
    let mut app = app_with(&[]);
    let fetched: Result<String, String> = Ok("x".to_string());
    assert!(app.load_man_page(fetched).is_ok());
    assert_eq!(app.current_command, None);
    assert_eq!(app.page_to_fetch(), None);
}

#[test]
fn in_page_search_finds_lines_ignoring_case() {
    let mut app = app_with(&["grep"]);
    let mut text = String::new();
    for i in 0..20 {
        if i == 3 || i == 12 {
            text.push_str("use GREP here\n");
        } else {
            text.push_str("other\n");
        }
    }
    open_page(&mut app, &text);
    app.focus = FocusState::Viewer;
    app.handle_key(Key::Char('/'));
    assert_eq!(app.focus, FocusState::InPageSearch);
    type_str(&mut app, "grep");
    assert_eq!(app.in_page_search_matches, vec![3, 12]);
    assert_eq!(app.current_match_index, Some(0));
    assert_eq!(app.scroll_offset, 0);
    app.handle_key(Key::Char('n'));
    assert_eq!(app.current_match_index, Some(1));
    assert_eq!(app.scroll_offset, 7);
    app.next_match();
    assert_eq!(app.current_match_index, Some(1));
    app.handle_key(Key::Char('N'));
    assert_eq!(app.current_match_index, Some(0));
    assert_eq!(app.scroll_offset, 0);
    app.handle_key(Key::Enter);
    assert_eq!(app.focus, FocusState::Viewer);
    assert_eq!(app.in_page_search_query, "grep");
}

#[test]
fn in_page_search_without_match() {
    let mut app = app_with(&["a"]);
    open_page(&mut app, "alpha\nbeta\n");
    app.scroll_offset = 4;
    app.update_in_page_search("zeta".to_string());
    assert!(app.in_page_search_matches.is_empty());
    assert_eq!(app.current_match_index, None);
    assert_eq!(app.scroll_offset, 4);
    app.update_in_page_search(String::new());
    assert_eq!(app.current_match_index, None);
}

#[test]
fn esc_cancels_in_page_search() {
    let mut app = app_with(&["a"]);
    open_page(&mut app, "alpha\nbeta\n");
    app.start_in_page_search();
    type_str(&mut app, "et");
    assert_eq!(app.in_page_search_matches, vec![1]);
    app.handle_key(Key::Esc);
    assert_eq!(app.focus, FocusState::Viewer);
    assert_eq!(app.in_page_search_query, "");
    assert!(app.in_page_search_matches.is_empty());
    assert_eq!(app.current_match_index, None);
}

#[test]
fn viewer_scrolls_by_line_and_page() {
    let mut app = app_with(&["a"]);
    app.focus = FocusState::Viewer;
    app.handle_key(Key::PageDown);
    assert_eq!(app.scroll_offset, 10);
    app.handle_key(Key::Down);
    assert_eq!(app.scroll_offset, 11);
    app.handle_key(Key::PageUp);
    assert_eq!(app.scroll_offset, 1);
    app.handle_key(Key::PageUp);
    assert_eq!(app.scroll_offset, 0);
    app.handle_key(Key::Up);
    assert_eq!(app.scroll_offset, 0);
    app.focus = FocusState::List;
    app.scroll_viewer_page_down();
    assert_eq!(app.scroll_offset, 0);
}

#[test]
fn viewer_lines_window() {
    let mut app = app_with(&["a"]);
    open_page(&mut app, "l0\nl1\nl2\nl3\n");
    assert_eq!(app.viewer_lines(2), strings(&["l0", "l1"]));
    app.scroll_offset = 3;
    assert_eq!(app.viewer_lines(5), strings(&["l3"]));
    app.scroll_offset = 9;
    assert!(app.viewer_lines(5).is_empty());
}

#[test]
fn theme_toggle_records_name() {
    let mut app = app_with(&["a"]);
    app.focus = FocusState::List;
    app.handle_key(Key::Char('t'));
    assert_eq!(app.theme, Theme::Light);
    assert_eq!(app.config.theme, "light");
    app.toggle_theme();
    assert_eq!(app.theme, Theme::Dark);
    assert_eq!(app.config.theme, "dark");
}

#[test]
fn favorite_toggle_needs_current_command() {
    let mut app = app_with(&["ls"]);
    app.toggle_favorite();
    assert!(app.config.favorites.is_empty());
    assert!(!app.is_favorite());
    open_page(&mut app, "x");
    app.focus = FocusState::Viewer;
    app.handle_key(Key::Char('f'));
    assert!(app.is_favorite());
    app.handle_key(Key::Char('f'));
    assert!(!app.is_favorite());
}

#[test]
fn section_selector_opens_on_current_section() {
    let mut app = app_with(&["a"]);
    app.selected_section = Some(8);
    app.focus = FocusState::List;
    app.handle_key(Key::Char('s'));
    assert_eq!(app.focus, FocusState::SectionSelect);
    assert_eq!(app.section_select_index, 2);
    app.handle_key(Key::Down);
    assert_eq!(app.section_select_index, 2);
    app.handle_key(Key::Up);
    assert_eq!(app.section_select_index, 1);
    assert_eq!(app.section_to_select(), Some(5));
    app.handle_key(Key::Esc);
    assert_eq!(app.focus, FocusState::List);
}

#[test]
fn selecting_section_replaces_commands() {
    let mut app = app_with(&["a"]);
    app.focus = FocusState::SectionSelect;
    app.section_select_index = 1;
    app.selected_index = 3;
    assert_eq!(app.handle_key(Key::Enter), KeyAction::SelectSection);
    let found: Result<Vec<String>, String> = Ok(strings(&["open", "close"]));
    app.select_section(found).unwrap();
    assert_eq!(app.selected_section, Some(5));
    assert_eq!(app.all_commands, strings(&["open", "close"]));
    assert_eq!(app.filtered_commands, strings(&["open", "close"]));
    assert_eq!(app.selected_index, 0);
    assert_eq!(app.focus, FocusState::List);
}

#[test]
fn section_discovery_error_is_returned() {
    let mut app = app_with(&["a"]);
    app.focus = FocusState::SectionSelect;
    app.section_select_index = 2;
    let failed: Result<Vec<String>, String> = Err("no dir".to_string());
    assert_eq!(app.select_section(failed), Err("no dir".to_string()));
    assert_eq!(app.selected_section, Some(8));
    assert_eq!(app.all_commands, strings(&["a"]));
    assert_eq!(app.focus, FocusState::SectionSelect);
}

#[test]
fn selector_out_of_range_does_nothing() {
    let mut app = app_with(&["a"]);
    app.section_select_index = 9;
    assert_eq!(app.section_to_select(), None);
    let found: Result<Vec<String>, String> = Ok(vec![]);
    assert!(app.select_section(found).is_ok());
    assert_eq!(app.selected_section, Some(1));
}

#[test]
fn save_config_records_position() {
    let mut app = app_with(&["ls"]);
    app.config.last_command = Some("old".to_string());
    app.save_config();
    assert_eq!(app.config.last_command, Some("old".to_string()));
    assert_eq!(app.config.last_section, Some(1));
    open_page(&mut app, "x");
    app.selected_section = None;
    app.save_config();
    assert_eq!(app.config.last_command, Some("ls".to_string()));
    assert_eq!(app.config.last_section, None);
}

#[test]
fn l_jumps_to_list() {
    for f in [FocusState::Search, FocusState::Viewer, FocusState::InPageSearch] {
        let mut app = app_with(&["a"]);
        app.focus = f;
        app.handle_key(Key::Char('l'));
        assert_eq!(app.focus, FocusState::List);
    }
}

#[test]
fn page_cache_keeps_latest_page_per_key() {
    let mut cache = PageCache::new();
    let k1 = cache_key(&"ls".to_string(), Some(1));
    let k2 = cache_key(&"ls".to_string(), None);
    assert_eq!(k1, "ls:1");
    assert_eq!(k2, "ls:");
    assert_eq!(cache.get(&k1), None);
    cache.insert(k1.clone(), "one".to_string());
    cache.insert(k2.clone(), "two".to_string());
    cache.insert(k1.clone(), "uno".to_string());
    assert_eq!(cache.get(&k1), Some("uno".to_string()));
    assert_eq!(cache.get(&k2), Some("two".to_string()));
}

#[test]
fn debounce_waits_the_full_period() {
    let mut app = app_with(&["grep", "ls"]);
    app.update_search_query("grep".to_string());
    app.apply_search_debounce(149);
    assert_eq!(app.filtered_commands.len(), 2);
    assert!(app.last_search_update.is_some());
    app.apply_search_debounce(150);
    assert_eq!(app.filtered_commands, strings(&["grep"]));
}
