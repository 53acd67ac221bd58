use jampgame_proxy::rules::{
    capture_base_limits, commit, decide, parse, restore_on_shutdown, select, Action, BaseLimits,
    LimitCvar, Rule, RulesState,
};

#[test]
fn parses_sizes_and_limits() {
    let rules = parse("2:20:30:5,3:15:40:0");
    assert_eq!(
        rules,
        vec![
            Rule { size: 2, time_limit: Some(20), frag_limit: Some(30), capture_limit: Some(5) },
            Rule { size: 3, time_limit: Some(15), frag_limit: Some(40), capture_limit: Some(0) },
        ]
    );
}

#[test]
fn empty_and_dash_fields_are_unset() {
    assert_eq!(
        parse("4::40:"),
        vec![Rule { size: 4, time_limit: None, frag_limit: Some(40), capture_limit: None }]
    );
    assert_eq!(
        parse("4:-:40:-"),
        vec![Rule { size: 4, time_limit: None, frag_limit: Some(40), capture_limit: None }]
    );
    assert_eq!(
        parse("2:20"),
        vec![Rule { size: 2, time_limit: Some(20), frag_limit: None, capture_limit: None }]
    );
}

#[test]
fn whitespace_separates_rules() {
    assert_eq!(parse("2:20:30:5 3:15:40:0").len(), 2);
    assert_eq!(parse("2:20:30:5;3:15:40:0").len(), 2);
}

#[test]
fn malformed_tokens_are_ignored() {
    assert!(parse("").is_empty());
    assert!(parse("abc").is_empty());
    assert!(parse("0:1:2:3").is_empty());
    assert!(parse("-2:1:2:3").is_empty());
    assert!(parse("2").len() == 1);
    assert_eq!(
        parse("2:x:30"),
        vec![Rule { size: 2, time_limit: None, frag_limit: Some(30), capture_limit: None }]
    );
}

#[test]
fn select_takes_nearest_lower_size() {
    let rules = parse("2:20:30:5,4:15:40:0");
    assert_eq!(select(&rules, 4).unwrap().time_limit, Some(15));
    assert_eq!(select(&rules, 5).unwrap().size, 4);
    assert_eq!(select(&rules, 3).unwrap().size, 2);
    assert_eq!(select(&rules, 1), None);
    let big = parse("5:10:10:10");
    assert_eq!(select(&big, 4), None);
    assert_eq!(select(&big, 5).unwrap().size, 5);
    assert_eq!(select(&big, 6).unwrap().size, 5);
}

#[test]
fn select_prefers_downward_between_sizes() {
    let rules = parse("2:20:30:5,6:15:40:0");
    assert_eq!(select(&rules, 5).unwrap().size, 2);
    assert_eq!(select(&rules, 6).unwrap().size, 6);
}

#[test]
fn empty_rules_select_nothing() {
    assert_eq!(select(&parse(""), 4), None);
}

#[test]
fn decide_applies_changes_and_restores_below_the_smallest_rule() {
    let rules = parse("2:1:0:0,3:0:1:0");
    let rule2 = select(&rules, 2);
    let rule3 = select(&rules, 3);
    assert_eq!(decide(None, &rules, 2, 2), Action::Apply(rule2.unwrap()));
    assert_eq!(decide(rule2, &rules, 2, 2), Action::NoChange);
    assert_eq!(decide(rule2, &rules, 3, 3), Action::Apply(rule3.unwrap()));
    assert_eq!(decide(rule3, &rules, 4, 4), Action::NoChange);
    assert_eq!(decide(rule3, &rules, 1, 1), Action::Restore);
    assert_eq!(decide(None, &rules, 1, 1), Action::NoChange);
    assert_eq!(decide(rule2, &rules, 2, 3), Action::NoChange);
    assert_eq!(decide(None, &rules, 0, 0), Action::NoChange);
}

#[test]
fn decide_honours_an_explicit_one_vs_one_rule() {
    let rules = parse("1:5:5:5,2:1:0:0");
    let rule1 = select(&rules, 1);
    assert_eq!(decide(None, &rules, 1, 1), Action::Apply(rule1.unwrap()), "an explicit 1 vs 1 rule must apply");
}

#[test]
fn parse_trims_unicode_white_space_and_signs() {
    // Vertical tab is not a rule separator but `trim` drops it; NBSP too.
    assert_eq!(
        parse("2\u{0B}:\u{A0}+20"),
        vec![Rule { size: 2, time_limit: Some(20), frag_limit: None, capture_limit: None }]
    );
    // Overflowing numbers do not parse.
    assert!(parse("2147483648:1").is_empty());
    assert_eq!(parse("3:-5")[0].time_limit, Some(-5));
    // Fields after the fourth are ignored.
    assert_eq!(parse("3:1:2:3:4").len(), 1);
}

#[test]
fn select_last_listed_wins_among_equal_sizes() {
    let rules = parse("2:1,2:7");
    assert_eq!(select(&rules, 3).unwrap().time_limit, Some(7));
}

#[test]
fn stable_roster_after_commit_issues_nothing() {
    let rules = parse("2:20::5");
    let mut st = RulesState { last_team_rule: None, base_limits: None };
    let action = decide(st.last_team_rule, &rules, 2, 2);
    capture_base_limits(&mut st, BaseLimits { time_limit: 10, frag_limit: 20, capture_limit: 8 });
    let writes = commit(&mut st, action);
    assert_eq!(writes, vec![(LimitCvar::TimeLimit, 20), (LimitCvar::CaptureLimit, 5)]);
    assert_eq!(decide(st.last_team_rule, &rules, 2, 2), Action::NoChange);
    // Below every rule: restore what was captured.
    let action = decide(st.last_team_rule, &rules, 1, 1);
    assert_eq!(action, Action::Restore);
    let writes = commit(&mut st, action);
    assert_eq!(
        writes,
        vec![(LimitCvar::TimeLimit, 10), (LimitCvar::FragLimit, 20), (LimitCvar::CaptureLimit, 8)]
    );
    assert_eq!(decide(st.last_team_rule, &rules, 1, 1), Action::NoChange);
}

#[test]
fn shutdown_restores_only_an_applied_rule() {
    let mut st = RulesState { last_team_rule: None, base_limits: None };
    assert!(restore_on_shutdown(&mut st).is_empty());
    let rule = Rule { size: 2, time_limit: Some(1), frag_limit: None, capture_limit: None };
    st.last_team_rule = Some(rule);
    st.base_limits = Some(BaseLimits { time_limit: 3, frag_limit: 4, capture_limit: 5 });
    let writes = restore_on_shutdown(&mut st);
    assert_eq!(writes.len(), 3);
    assert_eq!(st, RulesState { last_team_rule: None, base_limits: None });
}

#[test]
fn joined_rule_texts_parse_independently() {
    let a = "2:20:30:5,bad:1";
    let b = "0:1 3:15:40:0";
    for sep in [",", ";", " ", "\t", "\n"] {
        let joined = format!("{a}{sep}{b}");
        let mut expected = parse(a);
        expected.extend(parse(b));
        assert_eq!(parse(&joined), expected);
        assert!(parse(&joined).iter().all(|r| r.size >= 1));
    }
    assert_eq!(parse(&format!("{a},{b}")).len(), 2);
}
