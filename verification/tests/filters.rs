use condenser::CompiledGlob;
use condenser::CompiledRegex;
use condenser::FilterAction;
use condenser::FilterSet;

#[test]
fn basic_regex_functionality() {
    let paths = vec![
        "pizza/cheese/mozzarella",
        "pizza/cheese/parmesan",
        "sandwich/cheese/colby",
        "sandwich/cheese/provolone",
    ];

    let any_pizza = CompiledRegex::compile("pizza").unwrap();
    let mut filter_set = FilterSet::new();
    filter_set.append_regex(any_pizza, FilterAction::Accept);

    assert!(filter_set.is_acceptable(paths[0]));
    assert!(filter_set.is_acceptable(paths[1]));
    assert!(!filter_set.is_acceptable(paths[2]));
    assert!(!filter_set.is_acceptable(paths[3]));
}

#[test]
fn basic_glob_functionality() {
    let paths = vec![
        "pizza/cheese/mozzarella",
        "pizza/cheese/parmesan",
        "sandwich/cheese/colby",
        "sandwich/cheese/provolone",
    ];

    let any_pizza = CompiledGlob::compile("pizza/*").unwrap();
    let mut filter_set = FilterSet::new();
    filter_set.append_glob(any_pizza, FilterAction::Accept);

    assert!(filter_set.is_acceptable(paths[0]));
    assert!(filter_set.is_acceptable(paths[1]));
    assert!(!filter_set.is_acceptable(paths[2]));
    assert!(!filter_set.is_acceptable(paths[3]));
}

#[test]
fn empty_set_with_accepts_unmatched_true() {
    let path = "pizza/cheese/mozzarella";
    let mut filter_set = FilterSet::new();
    filter_set.accept_unmatched = true;

    assert!(filter_set.is_acceptable(path));
}

#[test]
fn empty_set_with_accepts_unmatched_false() {
    let path = "pizza/cheese/mozzarella";
    let mut filter_set = FilterSet::new();
    filter_set.accept_unmatched = false;

    assert!(!filter_set.is_acceptable(path));
}

#[test]
fn populated_set_with_accepts_unmatched_true() {
    let path = "pizza/cheese/mozzarella";
    let mut filter_set = FilterSet::new();
    filter_set.accept_unmatched = true;

    filter_set.append_regex(
        CompiledRegex::compile("garlic bread").unwrap(),
        FilterAction::Reject,
    );
    filter_set.append_regex(
        CompiledRegex::compile("spaghetti").unwrap(),
        FilterAction::Reject,
    );

    assert!(filter_set.is_acceptable(path));
}

#[test]
fn populated_set_with_accepts_unmatched_false() {
    let path = "pizza/cheese/mozzarella";
    let mut filter_set = FilterSet::new();
    filter_set.accept_unmatched = false;

    filter_set.append_regex(
        CompiledRegex::compile("garlic bread").unwrap(),
        FilterAction::Accept,
    );
    filter_set.append_regex(
        CompiledRegex::compile("spaghetti").unwrap(),
        FilterAction::Accept,
    );

    assert!(!filter_set.is_acceptable(path));
}

#[test]
fn first_matching_filter_decides() {
    let mut filter_set = FilterSet::new();
    filter_set.append_regex(
        CompiledRegex::compile("cheese").unwrap(),
        FilterAction::Reject,
    );
    filter_set.append_regex(
        CompiledRegex::compile("pizza").unwrap(),
        FilterAction::Accept,
    );

    // The reject rule matches first and short-circuits the accept rule.
    assert!(!filter_set.is_acceptable("pizza/cheese/mozzarella"));
    // Only the accept rule matches this one.
    assert!(filter_set.is_acceptable("pizza/dough"));
}

#[test]
fn individual_filter_test_returns_action() {
    let mut filter_set = FilterSet::new();
    filter_set.append_glob(CompiledGlob::compile("*.flac").unwrap(), FilterAction::Accept);
    assert!(filter_set.is_acceptable("song.flac"));
    assert!(!filter_set.is_acceptable("song.mp3"));
}

#[test]
fn pattern_is_match_glob_and_regex() {
    let glob = CompiledGlob::compile("d?g").unwrap();
    assert!(glob.is_match("dog"));
    assert!(!glob.is_match("doog"));
    assert_eq!(glob.pattern(), "d?g");

    let re = CompiledRegex::compile("^a+b$").unwrap();
    assert!(re.is_match("aaab"));
    assert!(!re.is_match("ba"));
    assert_eq!(re.pattern(), "^a+b$");
}

#[test]
fn invalid_patterns_are_rejected() {
    assert!(CompiledRegex::compile("(unclosed").is_none());
    assert!(CompiledGlob::compile("bad[range").is_none());
    assert!(CompiledRegex::compile("fine.*").is_some());
    assert!(CompiledGlob::compile("**/ok").is_some());
}
