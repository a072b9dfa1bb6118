use peek::rank::{fuzzy_score_of, fuzzy_search, rank_by_recency, rank_by_usage};
use peek::window::{Command, CommandMeta};

fn plain(text: &str) -> Command {
    Command::plain(text.to_string())
}

fn used(text: &str, usage_count: u64, last_used: Option<u64>) -> Command {
    Command {
        text: text.to_string(),
        meta: Some(CommandMeta { usage_count, last_used }),
    }
}

fn texts(commands: &[Command]) -> Vec<String> {
    commands.iter().map(|c| c.text.clone()).collect()
}

#[test]
fn fuzzy_scores_are_exact() {
    assert_eq!(fuzzy_score_of("git commit", "gco"), 3);
    assert_eq!(fuzzy_score_of("git status", "gco"), 1);
    assert_eq!(fuzzy_score_of("ls -la", "gco"), 0);
    assert_eq!(fuzzy_score_of("", "gco"), 0);
    assert_eq!(fuzzy_score_of("git commit", ""), 0);
}

#[test]
fn fuzzy_search_ranks_and_excludes() {
    let commands = vec![plain("git status"), plain("git commit"), plain("ls -la")];
    let ranked = fuzzy_search(&commands, "gco");
    assert_eq!(texts(&ranked), vec!["git commit".to_string(), "git status".to_string()]);
}

#[test]
fn fuzzy_search_breaks_ties_by_original_order() {
    let commands = vec![plain("cargo build"), plain("cargo bench"), plain("make")];
    let ranked = fuzzy_search(&commands, "cargo b");
    assert_eq!(
        texts(&ranked),
        vec!["cargo build".to_string(), "cargo bench".to_string()]
    );
}

#[test]
fn recency_orders_most_recent_first() {
    let commands = vec![
        used("oldest", 1, Some(10)),
        used("middle", 1, Some(20)),
        used("newest", 1, Some(30)),
    ];
    let ranked = rank_by_recency(&commands);
    assert_eq!(
        texts(&ranked),
        vec!["newest".to_string(), "middle".to_string(), "oldest".to_string()]
    );
}

#[test]
fn never_used_sorts_last() {
    let commands = vec![
        used("never", 5, None),
        used("late", 1, Some(1_000_000)),
        plain("bare"),
        used("early", 1, Some(1)),
    ];
    let ranked = rank_by_recency(&commands);
    assert_eq!(
        texts(&ranked),
        vec![
            "late".to_string(),
            "early".to_string(),
            "never".to_string(),
            "bare".to_string()
        ]
    );
}

#[test]
fn usage_orders_by_count_descending() {
    let commands = vec![
        used("rare", 2, None),
        used("common", 9, None),
        plain("unknown"),
        used("occasional", 4, Some(7)),
    ];
    let ranked = rank_by_usage(&commands);
    assert_eq!(
        texts(&ranked),
        vec![
            "common".to_string(),
            "occasional".to_string(),
            "rare".to_string(),
            "unknown".to_string()
        ]
    );
}

#[test]
fn ranking_does_not_mutate_the_input() {
    let commands = vec![used("a", 1, Some(2)), used("b", 2, Some(1))];
    let before = texts(&commands);
    let _ = rank_by_recency(&commands);
    let _ = rank_by_usage(&commands);
    let _ = fuzzy_search(&commands, "a");
    assert_eq!(texts(&commands), before);
}

#[test]
fn ranking_empty_input_is_empty() {
    let commands: Vec<Command> = vec![];
    assert!(rank_by_recency(&commands).is_empty());
    assert!(rank_by_usage(&commands).is_empty());
    assert!(fuzzy_search(&commands, "x").is_empty());
}
