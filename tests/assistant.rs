use shai::{clean_metadata_reply, normalize_suggestion, PipelineStep, SuggestionPipeline};
use shai::text::{contains_text, ellipsize};

fn run(pipeline: &mut SuggestionPipeline, replies: &[&str]) -> usize {
    let mut used = 0;
    for reply in replies {
        match pipeline.next_step() {
            PipelineStep::Request => {
                pipeline.on_reply(reply);
                used += 1;
            }
            PipelineStep::Done => break,
        }
    }
    used
}

#[test]
fn empty_round_yields_nothing_and_next_round_counts() {
    let mut pipeline = SuggestionPipeline::new(2);
    let used = run(&mut pipeline, &["", "", "", "command: ls -la"]);
    assert_eq!(used, 4);
    assert!(matches!(pipeline.next_step(), PipelineStep::Done));
    let found: Vec<String> = pipeline.into_suggestions().into_iter().map(|s| s.command).collect();
    assert_eq!(found, vec!["ls -la".to_string()]);
}

#[test]
fn each_round_takes_its_first_command() {
    let mut pipeline = SuggestionPipeline::new(3);
    let used = run(&mut pipeline, &["```command: pwd```", "", "command: whoami", "date", "extra"]);
    assert_eq!(used, 4);
    let found: Vec<String> = pipeline.into_suggestions().into_iter().map(|s| s.command).collect();
    assert_eq!(found, vec!["pwd", "whoami", "date"]);
}

#[test]
fn zero_or_negative_count_asks_nothing() {
    for count in [0, -4] {
        let pipeline = SuggestionPipeline::new(count);
        assert!(matches!(pipeline.next_step(), PipelineStep::Done));
        assert!(pipeline.into_suggestions().is_empty());
    }
}

#[test]
fn reply_after_the_last_round_is_ignored() {
    let mut pipeline = SuggestionPipeline::new(1);
    pipeline.on_reply("command: a");
    pipeline.on_reply("command: b");
    let found: Vec<String> = pipeline.into_suggestions().into_iter().map(|s| s.command).collect();
    assert_eq!(found, vec!["a"]);
}

#[test]
fn normalize_strips_fence_and_label() {
    assert_eq!(normalize_suggestion("```command: ls -la```"), "ls -la");
    assert_eq!(normalize_suggestion("  \n`command:    echo hi`\r\n"), "echo hi");
    assert_eq!(normalize_suggestion("command: ls -la"), "ls -la");
    assert_eq!(normalize_suggestion("git status"), "git status");
    assert_eq!(normalize_suggestion("command:ls"), "command:ls");
    assert_eq!(normalize_suggestion("```\ncommand: df -h # disk\n```"), "df -h # disk");
}

#[test]
fn normalize_of_nothing_is_empty() {
    assert_eq!(normalize_suggestion(""), "");
    assert_eq!(normalize_suggestion("   "), "");
    assert_eq!(normalize_suggestion("```\n```"), "");
    assert_eq!(normalize_suggestion("```command: ```"), "");
    assert_eq!(normalize_suggestion("`command: \n`"), "");
}

#[test]
fn normalize_keeps_a_label_that_does_not_lead() {
    assert_eq!(normalize_suggestion("command: "), "command:");
    assert_eq!(normalize_suggestion("echo command: x"), "echo command: x");
}

#[test]
fn metadata_reply_loses_its_fence() {
    assert_eq!(clean_metadata_reply("```json\n{\"name\": \"x\"}\n```"), "{\"name\": \"x\"}");
    assert_eq!(clean_metadata_reply("  {\"a\": 1}  "), "{\"a\": 1}");
    assert_eq!(clean_metadata_reply("```jsonjson {}```"), "{}");
    assert_eq!(clean_metadata_reply("```JSON {}```"), "JSON {}");
    assert_eq!(clean_metadata_reply(""), "");
}

#[test]
fn ellipsize_cuts_long_text() {
    assert_eq!(ellipsize("abcdef", 3), "abc...");
    assert_eq!(ellipsize("abc", 3), "abc");
    assert_eq!(ellipsize("", 0), "");
    assert_eq!(ellipsize("éèêë", 2), "éè...");
}

#[test]
fn contains_text_compares_exactly() {
    assert!(contains_text("docker-tools", "docker"));
    assert!(contains_text("abc", ""));
    assert!(contains_text("", ""));
    assert!(!contains_text("", "a"));
    assert!(!contains_text("Docker", "docker"));
    assert!(contains_text("xxabab", "abab"));
    assert!(!contains_text("ab", "abc"));
    assert!(contains_text("héllo wörld", "ö"));
}
