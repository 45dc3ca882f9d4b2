use man_tui::config::Config;

fn strings(v: &[&str]) -> Vec<String> {
    v.iter().map(|s| s.to_string()).collect()
}

#[test]
fn default_config_is_empty() {
    let c = Config::default();
    assert!(c.history.is_empty());
    assert!(c.favorites.is_empty());
    assert_eq!(c.last_command, None);
    assert_eq!(c.last_section, None);
    assert_eq!(c.theme, "");
}

#[test]
fn opened_command_moves_to_front_once() {
    let mut c = Config::default();
    c.history = strings(&["a", "b", "c", "b"]);
    c.add_to_history("b".to_string());
    assert_eq!(c.history, strings(&["b", "a", "c"]));
    c.add_to_history("z".to_string());
    assert_eq!(c.history, strings(&["z", "b", "a", "c"]));
}

#[test]
fn history_keeps_at_most_one_hundred() {
    let mut c = Config::default();
    for i in 0..150 {
        c.add_to_history(format!("cmd{}", i));
    }
    assert_eq!(c.history.len(), 100);
    assert_eq!(c.history[0], "cmd149");
    assert_eq!(c.history[99], "cmd50");
}

#[test]
fn toggling_favorite_adds_then_removes() {
    let mut c = Config::default();
    assert!(c.toggle_favorite("ls".to_string()));
    assert!(c.is_favorite("ls"));
    assert!(!c.toggle_favorite("ls".to_string()));
    assert!(!c.is_favorite("ls"));
    assert!(c.favorites.is_empty());
}

#[test]
fn toggling_twice_restores_favorites() {
    let mut c = Config::default();
    c.favorites = strings(&["a", "b"]);
    c.toggle_favorite("c".to_string());
    c.toggle_favorite("c".to_string());
    assert_eq!(c.favorites, strings(&["a", "b"]));
}

#[test]
fn removing_favorite_drops_first_copy_only() {
    let mut c = Config::default();
    c.favorites = strings(&["a", "b", "a"]);
    assert!(!c.toggle_favorite("a".to_string()));
    assert_eq!(c.favorites, strings(&["b", "a"]));
    assert!(c.is_favorite("a"));
}

#[test]
fn toggling_favorite_leaves_history_alone() {
    let mut c = Config::default();
    c.history = strings(&["x"]);
    c.toggle_favorite("y".to_string());
    assert_eq!(c.history, strings(&["x"]));
}
