use robots_client::robots::parser::{
    agent_span, allow_rule, directive_span, disallow_rule, is_user_agent, rule, rule_name,
    rule_span, run, user_agent, CharClass, Directive, Mismatch,
};

type Found = Result<(String, String), Mismatch>;

fn found(rest: &str, name: &str) -> Found {
    Ok((rest.to_string(), name.to_string()))
}

fn found_rule(rest: &str, name: &str, value: &str) -> Result<(String, (String, String)), Mismatch> {
    Ok((rest.to_string(), (name.to_string(), value.to_string())))
}

#[test]
fn user_agent_test() {
    assert_eq!(user_agent("user-agent:         mybot"), found("", "mybot"));
    assert_eq!(
        user_agent("     user-agent       :         mybot"),
        found("", "mybot")
    );

    assert_eq!(user_agent("user-agent: my-bot"), found("", "my-bot"));
}

#[test]
fn allow_rule_test() {
    assert_eq!(allow_rule("alow"), found("", "allow"));
    assert_eq!(allow_rule("allow"), found("", "allow"));
}

#[test]
fn disallow_rule_test() {
    assert_eq!(disallow_rule("disalow"), found("", "disallow"));
    assert_eq!(disallow_rule("disallow"), found("", "disallow"));
}

#[test]
fn rule_name_test() {
    assert_eq!(rule_name("  alow  "), found("", "allow"));
    assert_eq!(rule_name("  allow  "), found("", "allow"));
    assert_eq!(rule_name("allow  "), found("", "allow"));
    assert_eq!(rule_name("  allow"), found("", "allow"));
    assert_eq!(rule_name("allow"), found("", "allow"));

    assert_eq!(rule_name("  disalow  "), found("", "disallow"));
    assert_eq!(rule_name("  disallow  "), found("", "disallow"));
    assert_eq!(rule_name("disallow  "), found("", "disallow"));
    assert_eq!(rule_name("  disallow"), found("", "disallow"));
    assert_eq!(rule_name("disallow"), found("", "disallow"));

    assert_eq!(rule_name("crawl-delay"), found("", "crawl-delay"));
    assert_eq!(rule_name("  crawl-delay"), found("", "crawl-delay"));
    assert_eq!(rule_name("crawl-delay  "), found("", "crawl-delay"));
    assert_eq!(rule_name("  crawl-delay  "), found("", "crawl-delay"));
}

#[test]
fn rule_test() {
    assert_eq!(
        rule(" alow   :    /some-path"),
        found_rule("", "allow", "/some-path")
    );

    assert_eq!(
        rule(" alow   :    /some-path\n"),
        found_rule("\n", "allow", "/some-path")
    );

    assert_eq!(
        rule(" disalow   :    /some-path"),
        found_rule("", "disallow", "/some-path")
    );

    assert_eq!(
        rule(" disalow   :    /some-path\n"),
        found_rule("\n", "disallow", "/some-path")
    );

    assert_eq!(rule(" disalow   :"), found_rule("", "disallow", ""));
    assert_eq!(rule("crawl-delay: 1s"), found_rule("", "crawl-delay", "1s"));
}

#[test]
fn agent_characters() {
    for c in ['a', 'z', 'A', 'Z', 'm', 'Q', '-', '_', '*'] {
        assert!(is_user_agent(c), "{:?}", c);
    }
    for c in ['0', '9', ' ', '/', ':', '.', '@', '[', '`', '{', 'é', '\n'] {
        assert!(!is_user_agent(c), "{:?}", c);
    }
}

#[test]
fn character_classes() {
    for c in [' ', '\t', '\r', '\n'] {
        assert!(CharClass::Space.admits(c));
    }
    assert!(!CharClass::Space.admits('\u{a0}'));
    assert!(!CharClass::Space.admits('x'));
    assert!(CharClass::Agent.admits('*'));
    assert!(!CharClass::Agent.admits('1'));
    assert!(CharClass::Name.admits('\t'));
    assert!(CharClass::Name.admits('#'));
    assert!(!CharClass::Name.admits(' '));
    assert!(!CharClass::Name.admits(':'));
    assert!(CharClass::Value.admits(':'));
    assert!(CharClass::Value.admits('\t'));
    assert!(!CharClass::Value.admits(' '));
    assert!(!CharClass::Value.admits('#'));
    assert!(!CharClass::Value.admits('\n'));
}

#[test]
fn run_stops_at_the_first_other_character() {
    let line: Vec<char> = "  \t ab  ".chars().collect();
    assert_eq!(run(&line, 0, CharClass::Space), 4);
    assert_eq!(run(&line, 4, CharClass::Space), 4);
    assert_eq!(run(&line, 4, CharClass::Agent), 6);
    assert_eq!(run(&line, 6, CharClass::Space), 8);
    assert_eq!(run(&line, 8, CharClass::Space), 8);
    assert_eq!(run(&line, 1, CharClass::Name), 1);
    assert_eq!(run(&line, 2, CharClass::Name), 3);
    assert_eq!(run(&line, 4, CharClass::Name), 6);
    assert_eq!(run(&line, 4, CharClass::Value), 6);
}

#[test]
fn user_agent_keyword_in_any_case() {
    assert_eq!(user_agent("User-Agent: *"), found("", "*"));
    assert_eq!(user_agent("USER-AGENT:Some_Bot"), found("", "Some_Bot"));
    assert_eq!(user_agent("uSeR-aGeNt \t:\t x-y"), found("", "x-y"));
}

#[test]
fn user_agent_name_ends_at_the_first_other_character() {
    assert_eq!(user_agent("User-agent: MJ12bot"), found("12bot", "MJ"));
    assert_eq!(user_agent("User-agent: bot # mine"), found("# mine", "bot"));
    assert_eq!(user_agent("User-agent: a b"), found("b", "a"));
    assert_eq!(user_agent("User-agent: bot \r\n next"), found("next", "bot"));
}

#[test]
fn user_agent_mismatches() {
    assert_eq!(user_agent(""), Err(Mismatch::Keyword));
    assert_eq!(user_agent("   "), Err(Mismatch::Keyword));
    assert_eq!(user_agent("user-agen"), Err(Mismatch::Keyword));
    assert_eq!(user_agent("useragent: x"), Err(Mismatch::Keyword));
    assert_eq!(user_agent("Disallow: /"), Err(Mismatch::Keyword));
    assert_eq!(user_agent("x user-agent: a"), Err(Mismatch::Keyword));
    assert_eq!(user_agent("user-agent"), Err(Mismatch::Colon));
    assert_eq!(user_agent("user-agent mybot"), Err(Mismatch::Colon));
    assert_eq!(user_agent("user-agents: mybot"), Err(Mismatch::Colon));
    assert_eq!(user_agent("user-agent:"), Err(Mismatch::Agent));
    assert_eq!(user_agent("user-agent:   "), Err(Mismatch::Agent));
    assert_eq!(user_agent("user-agent: 123"), Err(Mismatch::Agent));
    assert_eq!(user_agent("user-agent: /bot"), Err(Mismatch::Agent));
}

#[test]
fn agent_span_gives_the_places() {
    let line: Vec<char> = "  user-agent : my-bot  # x".chars().collect();
    assert_eq!(agent_span(&line), Ok((15, 21, 23)));
    let line: Vec<char> = "user-agent:*".chars().collect();
    assert_eq!(agent_span(&line), Ok((11, 12, 12)));
    let line: Vec<char> = "user-agent:".chars().collect();
    assert_eq!(agent_span(&line), Err(Mismatch::Agent));
}

#[test]
fn keywords_leave_the_rest() {
    assert_eq!(allow_rule("Allow: /x"), found(": /x", "allow"));
    assert_eq!(allow_rule("ALOW/"), found("/", "allow"));
    assert_eq!(allow_rule("allowance"), found("ance", "allow"));
    assert_eq!(allow_rule("alowed"), found("ed", "allow"));
    assert_eq!(disallow_rule("DisAllow: /x"), found(": /x", "disallow"));
    assert_eq!(disallow_rule("DISALOW"), found("", "disallow"));
    assert_eq!(disallow_rule("disallowed"), found("ed", "disallow"));
}

#[test]
fn keywords_mismatch() {
    assert_eq!(allow_rule(""), Err(Mismatch::Keyword));
    assert_eq!(allow_rule(" allow"), Err(Mismatch::Keyword));
    assert_eq!(allow_rule("allo"), Err(Mismatch::Keyword));
    assert_eq!(allow_rule("alo"), Err(Mismatch::Keyword));
    assert_eq!(allow_rule("disallow"), Err(Mismatch::Keyword));
    assert_eq!(allow_rule("\u{e5}llow"), Err(Mismatch::Keyword));
    assert_eq!(disallow_rule(""), Err(Mismatch::Keyword));
    assert_eq!(disallow_rule(" disallow"), Err(Mismatch::Keyword));
    assert_eq!(disallow_rule("disalo"), Err(Mismatch::Keyword));
    assert_eq!(disallow_rule("allow"), Err(Mismatch::Keyword));
    assert_eq!(disallow_rule("dissallow"), Err(Mismatch::Keyword));
}

#[test]
fn rule_name_keeps_other_names_as_written() {
    assert_eq!(rule_name("Crawl-Delay: 1"), found(": 1", "Crawl-Delay"));
    assert_eq!(rule_name(" Host :x"), found(":x", "Host"));
    assert_eq!(rule_name("a\tb c"), found("c", "a\tb"));
    assert_eq!(rule_name("Sitemap"), found("", "Sitemap"));
    assert_eq!(rule_name("#note: x"), found(": x", "#note"));
}

#[test]
fn rule_name_prefers_the_known_directives() {
    assert_eq!(rule_name("Allowance: 5"), found("ance: 5", "allow"));
    assert_eq!(rule_name("disallowed"), found("ed", "disallow"));
    assert_eq!(rule_name("disallo"), found("", "disallo"));
    assert_eq!(rule_name("allo:"), found(":", "allo"));
}

#[test]
fn rule_name_mismatches() {
    assert_eq!(rule_name(""), Err(Mismatch::Name));
    assert_eq!(rule_name("   "), Err(Mismatch::Name));
    assert_eq!(rule_name(": /x"), Err(Mismatch::Name));
    assert_eq!(rule_name("  : /x"), Err(Mismatch::Name));
}

#[test]
fn directive_span_gives_kind_and_end() {
    let line: Vec<char> = "  Disalow: /".chars().collect();
    assert_eq!(directive_span(&line, 2), Ok((Directive::Disallow, 9)));
    assert_eq!(directive_span(&line, 0), Err(Mismatch::Name));
    assert_eq!(directive_span(&line, 3), Ok((Directive::Other, 9)));
    assert_eq!(directive_span(&line, 5), Ok((Directive::Allow, 9)));
    assert_eq!(directive_span(&line, 12), Err(Mismatch::Name));
}

#[test]
fn rule_values() {
    assert_eq!(rule("Disallow: /a b"), found_rule(" b", "disallow", "/a"));
    assert_eq!(rule("Disallow: /a#b"), found_rule("#b", "disallow", "/a"));
    assert_eq!(rule("Disallow: /a # b"), found_rule(" # b", "disallow", "/a"));
    assert_eq!(rule("Allow:/a\tb"), found_rule("", "allow", "/a\tb"));
    assert_eq!(rule("Disallow: /x\r"), found_rule("", "disallow", "/x\r"));
    assert_eq!(rule("Disallow:   "), found_rule("", "disallow", ""));
    assert_eq!(rule("Disallow:\t\r\n"), found_rule("", "disallow", ""));
    assert_eq!(
        rule("Host: https://example.com"),
        found_rule("", "Host", "https://example.com")
    );
    assert_eq!(rule("a:b:c"), found_rule("", "a", "b:c"));
    assert_eq!(rule("Disallow: \n /x"), found_rule("", "disallow", "/x"));
}

#[test]
fn rule_mismatches() {
    assert_eq!(rule(""), Err(Mismatch::Name));
    assert_eq!(rule(" : x"), Err(Mismatch::Name));
    assert_eq!(rule("Disallow"), Err(Mismatch::Colon));
    assert_eq!(rule("Disallow /x"), Err(Mismatch::Colon));
    assert_eq!(rule("Allowance: 5"), Err(Mismatch::Colon));
    assert_eq!(rule("# a comment"), Err(Mismatch::Colon));
    assert_eq!(rule("Disallow: # all"), Err(Mismatch::Value));
    assert_eq!(rule("Disallow:#"), Err(Mismatch::Value));
}

#[test]
fn rule_span_gives_the_places() {
    let line: Vec<char> = " alow   :    /some-path # c".chars().collect();
    let span = rule_span(&line).unwrap();
    assert_eq!(span.directive, Directive::Allow);
    assert_eq!(span.name, (1, 5));
    assert_eq!(span.value, (13, 23));
    let line: Vec<char> = "Crawl-Delay:1".chars().collect();
    let span = rule_span(&line).unwrap();
    assert_eq!(span.directive, Directive::Other);
    assert_eq!(span.name, (0, 11));
    assert_eq!(span.value, (12, 13));
    let line: Vec<char> = "x:".chars().collect();
    let span = rule_span(&line).unwrap();
    assert_eq!(span.value, (2, 2));
}

#[test]
fn misspelt_rules_read_like_the_right_spelling() {
    assert_eq!(rule("Disalow: /x"), rule("Disallow: /x"));
    assert_eq!(rule("Disalow: /x"), found_rule("", "disallow", "/x"));
    assert_eq!(rule("Alow: /y"), rule("Allow: /y"));
    assert_eq!(rule("Alow: /y"), found_rule("", "allow", "/y"));
    assert_eq!(rule("  ALOW :/y z"), rule("  allow :/y z"));
    assert_eq!(rule_name("DISALOW  x"), rule_name("disallow  x"));
}
