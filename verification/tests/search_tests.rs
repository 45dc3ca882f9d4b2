use man_tui::search::{filter_commands, rank_by_score};

fn strings(v: &[&str]) -> Vec<String> {
    v.iter().map(|s| s.to_string()).collect()
}

#[test]
fn empty_query_keeps_all_commands_in_order() {
    let cmds = strings(&["zsh", "awk", "ls"]);
    assert_eq!(filter_commands("", &cmds), cmds);
}

#[test]
fn query_drops_commands_that_do_not_match() {
    let cmds = strings(&["grep", "ls", "egrep", "cat"]);
    let out = filter_commands("grep", &cmds);
    assert_eq!(out.len(), 2);
    assert!(out.contains(&"grep".to_string()));
    assert!(out.contains(&"egrep".to_string()));
}

#[test]
fn exact_start_match_ranks_first() {
    let cmds = strings(&["egrep", "grep"]);
    assert_eq!(filter_commands("grep", &cmds)[0], "grep");
}

#[test]
fn query_that_matches_nothing_gives_nothing() {
    let cmds = strings(&["ls", "cat"]);
    assert!(filter_commands("qqq", &cmds).is_empty());
}

#[test]
fn ranking_is_by_descending_score_and_stable() {
    let cmds = strings(&["a", "b", "c", "d", "e"]);
    let scores = vec![Some(3), None, Some(7), Some(3), Some(-1)];
    assert_eq!(rank_by_score(&cmds, &scores), strings(&["c", "a", "d", "e"]));
}

#[test]
fn ranking_with_no_scores_is_empty() {
    let cmds = strings(&["a", "b"]);
    assert!(rank_by_score(&cmds, &[None, None]).is_empty());
}
