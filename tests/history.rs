use shai::{Command, History, HistoryData};

fn stamped(description: &str, command: &str, timestamp: i64) -> Command {
    Command::at(description.to_string(), command.to_string(), timestamp)
}

#[test]
fn test_add_command() {
    let mut history = History::new();

    let command = Command::new("list files".to_string(), "ls -la".to_string());

    history.add(command);
    let listed = history.list(None);
    assert_eq!(listed.len(), 1);
    assert_eq!(listed[0].description, "list files");
    assert_eq!(listed[0].command, "ls -la");
}

#[test]
fn test_list_commands() {
    let mut history = History::new();

    for i in 0..5 {
        let command = Command::new(format!("command {}", i), format!("echo {}", i));
        history.add(command);
    }

    let commands = history.list(Some(3));
    assert_eq!(commands.len(), 3);
}

#[test]
fn test_search_commands() {
    let mut history = History::new();

    let command1 = Command::new("find docker images".to_string(), "docker images".to_string());
    let command2 = Command::new("list files".to_string(), "ls -la".to_string());
    let command3 = Command::new("remove docker container".to_string(), "docker rm".to_string());

    history.add(command1);
    history.add(command2);
    history.add(command3);

    let results = history.search("docker");
    assert_eq!(results.len(), 2);
}

#[test]
fn test_clear_history() {
    let mut history = History::new();

    let command = Command::new("test".to_string(), "echo test".to_string());
    history.add(command);

    history.clear();

    let commands = history.list(None);
    assert_eq!(commands.len(), 0);
}

#[test]
fn test_history_limit() {
    let mut history = History::new();

    for i in 0..1100 {
        let command = Command::new(format!("command {}", i), format!("echo {}", i));
        history.add(command);
    }

    let commands = history.list(None);
    assert!(commands.len() <= 1000);
}

#[test]
fn cap_drops_exactly_the_oldest_entries() {
    let mut history = History::new();
    for i in 0..1005 {
        history.add(stamped(&format!("d{}", i), &format!("c{}", i), i));
    }
    let stored = &history.data().commands;
    assert_eq!(stored.len(), 1000);
    assert_eq!(stored[0].timestamp, 5);
    assert_eq!(stored[999].timestamp, 1004);
    for (k, c) in stored.iter().enumerate() {
        assert_eq!(c.timestamp, k as i64 + 5);
    }
}

#[test]
fn cap_is_not_reached_below_the_limit() {
    let mut history = History::new();
    for i in 0..1000 {
        history.add(stamped("d", "c", i));
    }
    assert_eq!(history.data().commands.len(), 1000);
    assert_eq!(history.data().commands[0].timestamp, 0);
}

#[test]
fn list_orders_newest_first() {
    let mut history = History::new();
    history.add(stamped("a", "a", 100));
    history.add(stamped("b", "b", 300));
    history.add(stamped("c", "c", 200));
    let stamps: Vec<i64> = history.list(None).iter().map(|c| c.timestamp).collect();
    assert_eq!(stamps, vec![300, 200, 100]);
    assert_eq!(history.data().commands[0].timestamp, 100);
}

#[test]
fn list_keeps_stored_order_among_equal_timestamps() {
    let mut history = History::new();
    history.add(stamped("first", "x", 10));
    history.add(stamped("second", "y", 20));
    history.add(stamped("third", "z", 10));
    history.add(stamped("fourth", "w", 20));
    let names: Vec<String> = history.list(None).into_iter().map(|c| c.description).collect();
    assert_eq!(names, vec!["second", "fourth", "first", "third"]);
}

#[test]
fn list_limit_takes_the_most_recent() {
    let mut history = History::new();
    for t in [5, 1, 9, 3] {
        history.add(stamped("d", "c", t));
    }
    let stamps: Vec<i64> = history.list(Some(2)).iter().map(|c| c.timestamp).collect();
    assert_eq!(stamps, vec![9, 5]);
    assert_eq!(history.list(Some(10)).len(), 4);
    assert_eq!(history.list(Some(0)).len(), 0);
}

#[test]
fn list_on_empty_log_is_empty() {
    let history = History::new();
    assert!(history.list(None).is_empty());
    assert!(history.search("x").is_empty());
}

#[test]
fn search_ignores_case_and_sorts_newest_first() {
    let mut history = History::new();
    history.add(stamped("Build the DOCKER image", "make", 1));
    history.add(stamped("list", "ls", 2));
    history.add(stamped("prune", "Docker system prune", 3));
    let found = history.search("dOcKeR");
    let stamps: Vec<i64> = found.iter().map(|c| c.timestamp).collect();
    assert_eq!(stamps, vec![3, 1]);
}

#[test]
fn search_empty_query_matches_everything() {
    let mut history = History::new();
    history.add(stamped("a", "b", 1));
    history.add(stamped("c", "d", 2));
    assert_eq!(history.search("").len(), 2);
}

#[test]
fn from_loaded_keeps_the_document_or_starts_empty() {
    let data = HistoryData { commands: vec![stamped("a", "b", 7)] };
    let history = History::from_loaded(Some(data));
    assert_eq!(history.data().commands.len(), 1);
    assert_eq!(history.data().commands[0].timestamp, 7);
    let empty = History::from_loaded(None);
    assert!(empty.data().commands.is_empty());
    assert!(HistoryData::default().commands.is_empty());
}

#[test]
fn command_constructors() {
    let c = Command::new("d".to_string(), "c".to_string());
    assert!(!c.executed);
    assert!(c.timestamp > 0);
    let e = Command::at("d".to_string(), "c".to_string(), 42).with_executed(true);
    assert!(e.executed);
    assert_eq!(e.timestamp, 42);
    assert_eq!(e.clone(), e);
}
