use condenser::CompiledGlob;
use condenser::FilterAction;
use condenser::FilterSet;
use condenser::InputDirectory;

#[test]
fn accept_files_keeps_only_chain_accepted_paths() {
    let mut filters = FilterSet::new();
    filters.append_glob(CompiledGlob::compile("*.flac").unwrap(), FilterAction::Accept);
    let dir = InputDirectory {
        priority: 1,
        filters,
        path: "/music".to_string(),
    };
    let discovered = vec![
        "one.flac".to_string(),
        "notes.txt".to_string(),
        "two.flac".to_string(),
    ];
    let accepted = dir.accept_files(&discovered);
    assert_eq!(accepted, vec!["one.flac".to_string(), "two.flac".to_string()]);
}

#[test]
fn accept_files_keeps_discovery_order() {
    let mut filters = FilterSet::new();
    filters.accept_unmatched = true;
    filters.append_glob(CompiledGlob::compile("skip/*").unwrap(), FilterAction::Reject);
    let dir = InputDirectory {
        priority: 1,
        filters,
        path: "/in".to_string(),
    };
    let discovered = vec![
        "b.txt".to_string(),
        "skip/c.txt".to_string(),
        "a.txt".to_string(),
    ];
    let accepted = dir.accept_files(&discovered);
    assert_eq!(accepted, vec!["b.txt".to_string(), "a.txt".to_string()]);
}
