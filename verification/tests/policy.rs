use robots_client::robots::policy::{
    evaluate, group_concerns, group_forbids, longest, Policy, Verdict,
};
use robots_client::robots::{parse, Group};

fn chars(s: &str) -> Vec<char> {
    s.chars().collect()
}

fn group(user_agents: &[&str], rules: &[(&str, &str)]) -> Group {
    Group {
        user_agents: user_agents.iter().map(|a| a.to_string()).collect(),
        rules: rules
            .iter()
            .map(|(n, v)| (n.to_string(), v.to_string()))
            .collect(),
    }
}

fn rules(rules: &[(&str, &str)]) -> Vec<(String, String)> {
    group(&[], rules).rules
}

const EXAMPLE: &str = "User-agent: dotbot\n\
Disallow: /\n\
Crawl-Delay: 1\n\
\n\
User-agent: *\n\
Host: https://example.com\n";

#[test]
fn named_agent_is_denied_and_another_falls_through() {
    let groups = parse(EXAMPLE);
    assert_eq!(evaluate(&groups, "dotbot", "/anything"), Verdict::Denied);
    assert_eq!(evaluate(&groups, "dotbot", "/"), Verdict::Denied);
    assert_eq!(evaluate(&groups, "otherbot", "/anything"), Verdict::Allowed);
    let only = vec![group(&["dotbot"], &[("disallow", "/")])];
    assert_eq!(evaluate(&only, "dotbot", "/anything"), Verdict::Denied);
    assert_eq!(evaluate(&only, "otherbot", "/anything"), Verdict::Allowed);
    let next = vec![
        group(&["dotbot"], &[("disallow", "/")]),
        group(&["otherbot"], &[("disallow", "/any")]),
    ];
    assert_eq!(evaluate(&next, "otherbot", "/anything"), Verdict::Denied);
    assert_eq!(evaluate(&next, "otherbot", "/else"), Verdict::Allowed);
}

#[test]
fn an_earlier_group_decides() {
    let groups = vec![
        group(&["*"], &[("allow", "/")]),
        group(&["dotbot"], &[("disallow", "/")]),
    ];
    assert_eq!(evaluate(&groups, "dotbot", "/anything"), Verdict::Allowed);
    let groups = vec![
        group(&["dotbot"], &[]),
        group(&["dotbot"], &[("disallow", "/")]),
    ];
    assert_eq!(evaluate(&groups, "dotbot", "/anything"), Verdict::Allowed);
}

#[test]
fn longest_prefix_wins() {
    let groups = vec![group(&["*"], &[("disallow", "/a"), ("allow", "/a/b")])];
    assert_eq!(evaluate(&groups, "bot", "/a/b/c"), Verdict::Allowed);
    assert_eq!(evaluate(&groups, "bot", "/a/x"), Verdict::Denied);
    assert_eq!(evaluate(&groups, "bot", "/a"), Verdict::Denied);
    assert_eq!(evaluate(&groups, "bot", "/a/b"), Verdict::Allowed);
    assert_eq!(evaluate(&groups, "bot", "/b"), Verdict::Allowed);
    let groups = vec![group(&["*"], &[("allow", "/a/b"), ("disallow", "/a")])];
    assert_eq!(evaluate(&groups, "bot", "/a/b/c"), Verdict::Allowed);
    assert_eq!(evaluate(&groups, "bot", "/a/x"), Verdict::Denied);
    let groups = vec![group(&["*"], &[("allow", "/a"), ("disallow", "/a/b")])];
    assert_eq!(evaluate(&groups, "bot", "/a/b/c"), Verdict::Denied);
    assert_eq!(evaluate(&groups, "bot", "/a/x"), Verdict::Allowed);
}

#[test]
fn a_tie_allows() {
    let groups = vec![group(&["*"], &[("disallow", "/a"), ("allow", "/a")])];
    assert_eq!(evaluate(&groups, "bot", "/a/b"), Verdict::Allowed);
    let groups = vec![group(&["*"], &[("allow", "/a"), ("disallow", "/a")])];
    assert_eq!(evaluate(&groups, "bot", "/a/b"), Verdict::Allowed);
}

#[test]
fn an_empty_pattern_denies_nothing() {
    let groups = vec![group(&["*"], &[("disallow", "")])];
    assert_eq!(evaluate(&groups, "bot", "/"), Verdict::Allowed);
    assert_eq!(evaluate(&groups, "bot", ""), Verdict::Allowed);
    let groups = vec![group(&["*"], &[("allow", ""), ("disallow", "/")])];
    assert_eq!(evaluate(&groups, "bot", "/x"), Verdict::Denied);
}

#[test]
fn no_groups_allow() {
    assert_eq!(evaluate(&Vec::new(), "bot", "/x"), Verdict::Allowed);
    assert_eq!(evaluate(&parse(""), "bot", "/x"), Verdict::Allowed);
    let groups = vec![group(&["a"], &[("disallow", "/")])];
    assert_eq!(evaluate(&groups, "b", "/x"), Verdict::Allowed);
}

#[test]
fn wildcard_fallback() {
    let groups = vec![
        group(&["alpha"], &[("allow", "/")]),
        group(&["*"], &[("disallow", "/private")]),
        group(&["*"], &[("disallow", "/")]),
    ];
    assert_eq!(evaluate(&groups, "beta", "/private/x"), Verdict::Denied);
    assert_eq!(evaluate(&groups, "beta", "/public"), Verdict::Allowed);
    assert_eq!(evaluate(&groups, "alpha", "/private/x"), Verdict::Allowed);
}

#[test]
fn agent_names_match_in_any_case() {
    let groups = vec![group(&["DotBot"], &[("disallow", "/")])];
    assert_eq!(evaluate(&groups, "dotbot", "/x"), Verdict::Denied);
    assert_eq!(evaluate(&groups, "DOTBOT", "/x"), Verdict::Denied);
    assert_eq!(evaluate(&groups, "dotbo", "/x"), Verdict::Allowed);
    assert_eq!(evaluate(&groups, "dotbots", "/x"), Verdict::Allowed);
    assert_eq!(evaluate(&groups, "", "/x"), Verdict::Allowed);
}

#[test]
fn group_concerns_by_name_or_wildcard() {
    let g = group(&["a", "Bee", "c"], &[]);
    assert!(group_concerns(&g, &chars("bee")));
    assert!(group_concerns(&g, &chars("C")));
    assert!(!group_concerns(&g, &chars("d")));
    assert!(!group_concerns(&g, &chars("*")));
    let g = group(&["a", "*"], &[]);
    assert!(group_concerns(&g, &chars("anything")));
    let g = group(&["**"], &[]);
    assert!(!group_concerns(&g, &chars("anything")));
    assert!(group_concerns(&g, &chars("**")));
    assert!(!group_concerns(&group(&[], &[]), &chars("a")));
}

#[test]
fn longest_cover_lengths() {
    let r = rules(&[
        ("disallow", "/a"),
        ("allow", "/a/b/c"),
        ("disallow", "/a/b"),
        ("disallow", "/x"),
        ("Disallow", "/a/b/c/d"),
        ("crawl-delay", "/a/b/c"),
    ]);
    assert_eq!(longest(&r, "disallow", &chars("/a/b/c/d")), 4);
    assert_eq!(longest(&r, "allow", &chars("/a/b/c/d")), 6);
    assert_eq!(longest(&r, "allow", &chars("/a/b/")), 0);
    assert_eq!(longest(&r, "disallow", &chars("/a")), 2);
    assert_eq!(longest(&r, "disallow", &chars("/")), 0);
    assert_eq!(longest(&r, "disallow", &chars("/x/a/b")), 2);
    assert_eq!(longest(&Vec::new(), "disallow", &chars("/x")), 0);
}

#[test]
fn rule_names_are_compared_as_kept() {
    let g = group(&["*"], &[("Disallow", "/")]);
    assert!(!group_forbids(&g, &chars("/x")));
    let g = group(&["*"], &[("disallow", "/")]);
    assert!(group_forbids(&g, &chars("/x")));
    let groups = parse("User-agent: *\nDISALLOW: /\n");
    assert_eq!(evaluate(&groups, "bot", "/x"), Verdict::Denied);
}

#[test]
fn paths_are_compared_character_by_character() {
    let groups = vec![group(&["*"], &[("disallow", "/Caf\u{e9}")])];
    assert_eq!(evaluate(&groups, "bot", "/Caf\u{e9}/x"), Verdict::Denied);
    assert_eq!(evaluate(&groups, "bot", "/caf\u{e9}/x"), Verdict::Allowed);
    assert_eq!(evaluate(&groups, "bot", "/Cafe"), Verdict::Allowed);
}

#[test]
fn policy_from_text() {
    let policy = Policy::from_text("https://example.com".to_string(), EXAMPLE);
    assert_eq!(policy.host, "https://example.com");
    assert_eq!(policy.groups, parse(EXAMPLE));
    assert_eq!(policy.evaluate("dotbot", "/x"), Verdict::Denied);
    assert_eq!(policy.evaluate("DotBot", "/x"), Verdict::Denied);
    assert_eq!(policy.evaluate("other", "/x"), Verdict::Allowed);
}
