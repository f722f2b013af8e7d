use ai_agent::context::{CompactionConfig, ContextManager, MergeStrategy};
use ai_agent::types::{Message, Role};

fn system_msg(s: &str) -> Message {
    Message::new(Role::System, s)
}

fn user_msg(s: &str) -> Message {
    Message::new(Role::User, s)
}

fn contents(cm: &ContextManager) -> Vec<String> {
    cm.current_messages().iter().map(|m| m.content.clone().unwrap_or_default()).collect()
}

#[test]
fn test_new_has_main_branch() {
    let cm = ContextManager::new();
    assert_eq!(cm.len(), 1);
    assert_eq!(cm.current_branch().name, "main");
    assert!(cm.current_messages().is_empty());
}

#[test]
fn test_push_message() {
    let mut cm = ContextManager::new();
    cm.push(user_msg("hello"));
    assert_eq!(cm.current_messages().len(), 1);
}

#[test]
fn test_create_and_switch_branch() {
    let mut cm = ContextManager::new();

    cm.push(system_msg("sys1"));
    cm.push(user_msg("user1"));

    cm.create_branch("experiment");
    let exp_id = cm.find_id_by_name("experiment").unwrap();
    assert_eq!(cm.get(&exp_id).unwrap().messages.len(), 2);

    cm.push(user_msg("exp-specific"));
    assert_eq!(cm.current_messages().len(), 3);

    let main_id = cm.find_id_by_name("main").unwrap();
    cm.switch(main_id.clone()).unwrap();
    assert_eq!(cm.current_messages().len(), 2);
    assert_eq!(cm.current_branch().name, "main");
}

#[test]
fn test_merge_fast_forward() {
    let mut cm = ContextManager::new();

    cm.push(system_msg("sys1"));
    cm.push(user_msg("q1"));

    cm.create_branch("dev");
    cm.push(user_msg("dev-only"));

    let main_id = cm.find_id_by_name("main").unwrap();
    cm.switch(main_id).unwrap();
    let dev_id = cm.find_id_by_name("dev").unwrap();
    cm.merge(&dev_id, MergeStrategy::FastForward).unwrap();

    assert_eq!(cm.current_messages().len(), 3);
    assert_eq!(cm.current_messages()[2].content.as_deref(), Some("dev-only"));
}

#[test]
fn test_merge_overwrite() {
    let mut cm = ContextManager::new();

    cm.push(system_msg("sys1"));
    cm.push(user_msg("q1"));

    cm.create_branch("dev");
    cm.push(user_msg("dev-only"));

    let main_id = cm.find_id_by_name("main").unwrap();
    cm.switch(main_id).unwrap();
    let dev_id = cm.find_id_by_name("dev").unwrap();
    cm.merge(&dev_id, MergeStrategy::Overwrite).unwrap();

    assert_eq!(cm.current_messages().len(), 3);
}

#[test]
fn test_merge_union() {
    let mut cm = ContextManager::new();

    cm.push(system_msg("sys"));
    cm.push(user_msg("q1"));

    cm.create_branch("side-a");
    cm.push(user_msg("a-only"));

    let main_id = cm.find_id_by_name("main").unwrap();
    cm.switch(main_id).unwrap();
    cm.push(user_msg("main-only"));

    let side_a = cm.find_id_by_name("side-a").unwrap();
    cm.merge(&side_a, MergeStrategy::Union).unwrap();

    let contents: Vec<Option<String>> = cm
        .current_messages()
        .iter()
        .map(|m| m.content.clone())
        .collect();
    assert!(contents.contains(&Some("a-only".into())));
    assert!(contents.contains(&Some("main-only".into())));
}

#[test]
fn test_delete_branch() {
    let mut cm = ContextManager::new();
    cm.create_branch("tmp");
    cm.create_branch("tmp2");

    let tmp_id = cm.find_id_by_name("tmp").unwrap();
    assert!(cm.delete(&tmp_id).is_ok());
    assert_eq!(cm.len(), 2);
}

#[test]
fn test_delete_refuses_current_and_last() {
    let mut cm = ContextManager::new();
    let main_id = cm.find_id_by_name("main").unwrap();
    assert_eq!(cm.delete(&main_id), Err("last branch"));

    cm.create_branch("tmp");
    let tmp_id = cm.find_id_by_name("tmp").unwrap();
    assert_eq!(cm.delete(&tmp_id), Err("current branch"));
}

#[test]
fn test_switch_by_name_not_found() {
    let mut cm = ContextManager::new();
    assert_eq!(
        cm.switch_by_name("nonexistent"),
        Err("branch 'nonexistent' not found".into())
    );
}

#[test]
fn test_rename() {
    let mut cm = ContextManager::new();
    cm.rename("production");
    assert_eq!(cm.current_branch().name, "production");
}

#[test]
fn test_snapshot_round_trip() {
    let mut cm = ContextManager::new();
    cm.push(user_msg("hello"));
    cm.create_branch("feature");

    let snap = cm.snapshot();
    assert_eq!(snap.len(), 2);
    assert!(snap.iter().any(|(_, (name, msgs))| name == "feature" && msgs.len() == 1));
}

#[test]
fn test_needs_compaction_below_threshold() {
    let mut cm = ContextManager::new();
    let config = CompactionConfig {
        max_messages: 10,
        reserve_recent: 3,
    };
    for i in 0..8 {
        cm.push(user_msg(&format!("msg {i}")));
    }
    assert!(!cm.needs_compaction(&config));
}

#[test]
fn test_needs_compaction_above_threshold() {
    let mut cm = ContextManager::new();
    let config = CompactionConfig {
        max_messages: 5,
        reserve_recent: 2,
    };
    for i in 0..8 {
        cm.push(user_msg(&format!("msg {i}")));
    }
    assert!(cm.needs_compaction(&config));
}

#[test]
fn test_compaction_range_returns_none_if_no_compaction_needed() {
    let mut cm = ContextManager::new();
    let config = CompactionConfig::default();
    for i in 0..10 {
        cm.push(user_msg(&format!("msg {i}")));
    }
    assert!(cm.compaction_range(&config).is_none());
}

#[test]
fn test_compaction_range_skips_system_and_reserve_recent() {
    let mut cm = ContextManager::new();
    let config = CompactionConfig {
        max_messages: 5,
        reserve_recent: 2,
    };
    cm.push(system_msg("You are a bot."));
    for i in 0..10 {
        cm.push(user_msg(&format!("msg {i}")));
    }

    let range = cm.compaction_range(&config).unwrap();
    assert_eq!(range, (1, 9));
}

#[test]
fn test_compaction_range_respects_system_position() {
    let mut cm = ContextManager::new();
    let config = CompactionConfig {
        max_messages: 4,
        reserve_recent: 1,
    };
    for i in 0..6 {
        cm.push(user_msg(&format!("msg {i}")));
    }
    let range = cm.compaction_range(&config).unwrap();
    assert_eq!(range, (0, 5));
}

#[test]
fn test_compact_reduces_message_count() {
    let mut cm = ContextManager::new();
    cm.push(system_msg("System init."));
    for i in 0..10 {
        cm.push(user_msg(&format!("msg {i}")));
    }
    assert_eq!(cm.current_messages().len(), 11);

    cm.compact("Summary of previous conversation.".into(), 1, 9);
    assert_eq!(cm.current_messages().len(), 4);
    assert_eq!(
        cm.current_messages()[1].content.as_deref(),
        Some("Summary of previous conversation.")
    );
    assert_eq!(cm.current_messages()[1].role, Role::System);
}

#[test]
fn test_full_compaction_cycle() {
    let mut cm = ContextManager::new();
    let config = CompactionConfig {
        max_messages: 6,
        reserve_recent: 2,
    };

    cm.push(system_msg("System prompt."));
    for i in 0..10 {
        cm.push(user_msg(&format!("msg {i}")));
    }

    assert!(cm.needs_compaction(&config));
    let (start, end) = cm.compaction_range(&config).unwrap();

    let summary = format!("Compacted {} messages.", end - start);
    cm.compact(summary, start, end);

    assert_eq!(cm.current_messages().len(), 4);
    assert_eq!(
        cm.current_messages()[0].content.as_deref(),
        Some("System prompt.")
    );
    assert!(cm.current_messages()[1]
        .content
        .as_deref()
        .unwrap()
        .contains("Compacted"));
}

#[test]
fn test_compaction_no_system_message() {
    let mut cm = ContextManager::new();
    let config = CompactionConfig {
        max_messages: 3,
        reserve_recent: 1,
    };

    for i in 0..6 {
        cm.push(user_msg(&format!("msg {i}")));
    }

    let (start, end) = cm.compaction_range(&config).unwrap();
    assert_eq!(start, 0);
    assert_eq!(end, 5);

    cm.compact("Early messages.".into(), start, end);
    assert_eq!(cm.current_messages().len(), 2);
}

#[test]
fn fresh_branches_get_different_uuids() {
    let mut cm = ContextManager::new();
    let first = cm.current_branch().id.clone();
    let second = cm.create_branch("b").id.clone();
    assert_ne!(first, second);
    for id in [&first, &second] {
        let chars: Vec<char> = id.chars().collect();
        assert_eq!(chars.len(), 36);
        for (i, c) in chars.iter().enumerate() {
            if i == 8 || i == 13 || i == 18 || i == 23 {
                assert_eq!(*c, '-');
            } else {
                assert!(c.is_ascii_digit() || ('a'..='f').contains(c));
            }
        }
        assert_eq!(chars[14], '4');
        assert!(matches!(chars[19], '8' | '9' | 'a' | 'b'));
    }
}

#[test]
fn a_fork_remembers_where_it_came_from() {
    let mut cm = ContextManager::with_main("root".to_string());
    cm.push(user_msg("one"));
    cm.fork_as("leaf".to_string(), "feature");
    let b = cm.current_branch();
    assert_eq!(b.id, "leaf");
    assert_eq!(b.parent_branch_id.as_deref(), Some("root"));
    assert_eq!(b.fork_point, Some(1));
}

#[test]
fn work_on_a_fork_does_not_reach_the_parent() {
    let mut cm = ContextManager::with_main("root".to_string());
    cm.push(user_msg("one"));
    cm.fork_as("leaf".to_string(), "feature");
    cm.push(user_msg("two"));
    cm.switch("root".to_string()).unwrap();
    assert_eq!(contents(&cm), vec!["one"]);
    cm.delete("leaf").unwrap();
    assert_eq!(cm.len(), 1);
}

#[test]
fn switching_to_an_unknown_id_gives_it_back() {
    let mut cm = ContextManager::with_main("root".to_string());
    assert_eq!(cm.switch("nowhere".to_string()), Err("nowhere".to_string()));
    assert_eq!(cm.current_branch().id, "root");
}

#[test]
fn deleting_an_unknown_id_changes_nothing() {
    let mut cm = ContextManager::with_main("root".to_string());
    cm.fork_as("leaf".to_string(), "feature");
    assert_eq!(cm.delete("nowhere"), Ok(()));
    assert_eq!(cm.len(), 2);
}

#[test]
fn merging_an_unknown_branch_is_an_error() {
    let mut cm = ContextManager::with_main("root".to_string());
    assert_eq!(
        cm.merge("ghost", MergeStrategy::Union),
        Err("source branch 'ghost' not found".to_string())
    );
}

#[test]
fn a_union_keeps_the_prefix_and_drops_repetitions() {
    let mut cm = ContextManager::with_main("root".to_string());
    cm.push(system_msg("sys"));
    cm.push(user_msg("same"));
    cm.push(user_msg("same"));
    cm.fork_as("side".to_string(), "side");
    cm.push(user_msg("s"));
    cm.push(user_msg("m"));
    cm.switch("root".to_string()).unwrap();
    cm.push(user_msg("m"));
    cm.push(user_msg("same"));
    cm.merge("side", MergeStrategy::Union).unwrap();
    assert_eq!(contents(&cm), vec!["sys", "same", "same", "m", "s"]);
}

#[test]
fn merging_twice_changes_nothing_more() {
    for strategy in [MergeStrategy::Overwrite, MergeStrategy::FastForward, MergeStrategy::Union] {
        let mut cm = ContextManager::with_main("root".to_string());
        cm.push(user_msg("a"));
        cm.fork_as("side".to_string(), "side");
        cm.push(user_msg("b"));
        cm.push(user_msg("b"));
        cm.switch("root".to_string()).unwrap();
        cm.push(user_msg("c"));
        cm.merge("side", strategy).unwrap();
        let once = contents(&cm);
        cm.merge("side", strategy).unwrap();
        assert_eq!(contents(&cm), once);
    }
}

#[test]
fn a_fast_forward_starts_behind_the_fork() {
    let mut cm = ContextManager::with_main("root".to_string());
    cm.push(user_msg("a"));
    cm.push(user_msg("b"));
    cm.fork_as("side".to_string(), "side");
    cm.push(user_msg("c"));
    cm.switch("root".to_string()).unwrap();
    cm.compact("ab".to_string(), 0, 2);
    cm.merge("side", MergeStrategy::FastForward).unwrap();
    assert_eq!(contents(&cm), vec!["ab", "c"]);
}

#[test]
fn branches_are_listed_by_name() {
    let mut cm = ContextManager::with_main("1".to_string());
    cm.fork_as("2".to_string(), "zeta");
    cm.fork_as("3".to_string(), "alpha");
    cm.fork_as("4".to_string(), "Beta");
    let names: Vec<&str> = cm.list().iter().map(|b| b.name.as_str()).collect();
    assert_eq!(names, vec!["Beta", "alpha", "main", "zeta"]);
    assert!(!cm.is_empty());
}

#[test]
fn a_branch_can_be_changed_in_place() {
    let mut cm = ContextManager::with_main("root".to_string());
    cm.current_branch_mut().name = "other".to_string();
    cm.extend(vec![user_msg("x"), user_msg("y")]);
    assert_eq!(cm.current_branch().name, "other");
    assert_eq!(contents(&cm), vec!["x", "y"]);
}

#[test]
fn compaction_keeps_the_prompt_and_the_recent_messages() {
    let mut cm = ContextManager::with_main("root".to_string());
    let config = CompactionConfig { max_messages: 3, reserve_recent: 2 };
    cm.push(user_msg("hello"));
    cm.push(system_msg("rules"));
    for i in 0..4 {
        cm.push(user_msg(&format!("{i}")));
    }
    let (start, end) = cm.compaction_range(&config).unwrap();
    assert_eq!((start, end), (2, 4));
    cm.compact("sum".to_string(), start, end);
    assert_eq!(contents(&cm), vec!["hello", "rules", "sum", "2", "3"]);
}

#[test]
fn nothing_to_compact_between_prompt_and_recent() {
    let mut cm = ContextManager::with_main("root".to_string());
    for i in 0..4 {
        cm.push(user_msg(&format!("{i}")));
    }
    cm.push(system_msg("late rules"));
    let config = CompactionConfig { max_messages: 3, reserve_recent: 0 };
    assert_eq!(cm.compaction_range(&config), None);
    let config = CompactionConfig { max_messages: 3, reserve_recent: 9 };
    assert_eq!(cm.compaction_range(&config), None);
}

#[test]
fn messages_can_be_cut_out() {
    let mut cm = ContextManager::with_main("root".to_string());
    for i in 0..5 {
        cm.push(user_msg(&format!("{i}")));
    }
    cm.remove_range(1, 3);
    assert_eq!(contents(&cm), vec!["0", "3", "4"]);
}
