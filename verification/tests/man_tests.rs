use man_tui::man::{command_names, man_command_line, missing_page_message};

fn strings(v: &[&str]) -> Vec<String> {
    v.iter().map(|s| s.to_string()).collect()
}

#[test]
fn page_files_give_sorted_unique_commands() {
    let names = strings(&["ls.1.gz", "git.1.gz", "ls.1posix.gz", "README", "cat.1", "git-add.1.gz"]);
    assert_eq!(command_names(&names), strings(&["git", "git-add", "ls"]));
}

#[test]
fn no_page_files_give_no_commands() {
    assert!(command_names(&strings(&["notes.txt", "gz", "a.g"])).is_empty());
    assert!(command_names(&[]).is_empty());
}

#[test]
fn name_without_stem_gives_empty_command() {
    assert_eq!(command_names(&strings(&[".gz"])), strings(&[""]));
}

#[test]
fn man_command_with_and_without_section() {
    assert_eq!(man_command_line("ls", Some(1)), "man 1 ls | col -b");
    assert_eq!(man_command_line("ls", None), "man ls | col -b");
    assert_eq!(man_command_line("x", Some(255)), "man 255 x | col -b");
    assert_eq!(man_command_line("x", Some(42)), "man 42 x | col -b");
    assert_eq!(man_command_line("x", Some(0)), "man 0 x | col -b");
}

#[test]
fn missing_page_text() {
    assert_eq!(missing_page_message("nope"), "Man page for 'nope' not found.");
}
