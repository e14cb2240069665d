use condenser::run_claiming;
use condenser::orphaned_files;
use condenser::priority_order;
use condenser::CommandTransformer;
use condenser::CompiledGlob;
use condenser::CopyTransformer;
use condenser::DirectoryListing;
use condenser::FilterAction;
use condenser::FullCommand;
use condenser::OverwriteBehavior;
use condenser::StringSet;
use condenser::TransformerInstance;
use condenser::TransformerKind;

fn copy_instance(priority: u32, name: &str) -> TransformerInstance {
    let mut inst = TransformerInstance::new(
        priority,
        OverwriteBehavior::Always,
        name.to_string(),
        TransformerKind::Copy(CopyTransformer),
    );
    inst.filter.accept_unmatched = true;
    inst
}

fn flac_to_ogg_instance(priority: u32, name: &str) -> TransformerInstance {
    let mut inst = TransformerInstance::new(
        priority,
        OverwriteBehavior::Always,
        name.to_string(),
        TransformerKind::Command(CommandTransformer {
            transform_command: FullCommand::new("encoder".to_string()),
            check_command: None,
            output_file_extension: Some("ogg".to_string()),
        }),
    );
    inst.filter
        .append_glob(CompiledGlob::compile("*.flac").unwrap(), FilterAction::Accept);
    inst
}

fn listing(dir: &str, files: &[&str]) -> DirectoryListing {
    DirectoryListing {
        dir_path: dir.to_string(),
        files: files.iter().map(|f| f.to_string()).collect(),
    }
}

#[test]
fn same_logical_output_from_two_directories_claimed_once() {
    // Directories A (priority 100) and B (priority 50) both hold song.flac;
    // one instance transforms .flac to .ogg. Exactly one claim results,
    // sourced from A, and B's copy is simply left unclaimed.
    let mut instances = vec![flac_to_ogg_instance(10, "flac2ogg")];
    let listings = vec![
        listing("/a", &["song.flac"]),
        listing("/b", &["song.flac"]),
    ];
    let sets = run_claiming(&mut instances, &listings);

    assert_eq!(instances[0].input_queues.len(), 1);
    assert_eq!(instances[0].input_queues[0].dir_path, "/a");
    assert_eq!(instances[0].input_queues[0].files, vec!["song.flac".to_string()]);
    assert!(sets.output_paths.contains(&"song.ogg".to_string()));
    assert!(sets.claimed_outputs.contains(&"song".to_string()));
}

#[test]
fn higher_priority_instance_wins_the_claim() {
    let mut instances = vec![copy_instance(1, "low"), copy_instance(2, "high")];
    let listings = vec![listing("/in", &["photo.jpg"])];
    run_claiming(&mut instances, &listings);

    assert_eq!(instances[0].input_queues.len(), 0);
    assert_eq!(instances[1].input_queues.len(), 1);
    assert_eq!(instances[1].input_queues[0].files, vec!["photo.jpg".to_string()]);
}

#[test]
fn equal_priority_first_registered_wins() {
    let mut instances = vec![copy_instance(5, "first"), copy_instance(5, "second")];
    let listings = vec![listing("/in", &["photo.jpg"])];
    run_claiming(&mut instances, &listings);

    assert_eq!(instances[0].input_queues.len(), 1);
    assert_eq!(instances[1].input_queues.len(), 0);
}

#[test]
fn filter_rejected_file_is_not_claimed() {
    // The instance could handle the file, but its chain rejects it.
    let mut inst = flac_to_ogg_instance(1, "flac2ogg");
    let mut pending = vec!["song.mp3".to_string()];
    let mut ids = StringSet::new();
    let mut paths = StringSet::new();
    let count = inst.claim_outputs("/in", &mut pending, &mut ids, &mut paths);

    assert_eq!(count, 0);
    assert_eq!(pending, vec!["song.mp3".to_string()]);
    assert_eq!(inst.input_queues.len(), 0);
}

#[test]
fn duplicate_output_identity_within_one_directory() {
    // song.flac and song.wav share the logical output "song"; only the
    // first is claimed, the second stays pending.
    let mut inst = copy_instance(1, "copy");
    let mut pending = vec!["song.flac".to_string(), "song.wav".to_string()];
    let mut ids = StringSet::new();
    let mut paths = StringSet::new();
    let count = inst.claim_outputs("/in", &mut pending, &mut ids, &mut paths);

    assert_eq!(count, 1);
    assert_eq!(pending, vec!["song.wav".to_string()]);
    assert_eq!(inst.input_queues.len(), 1);
    assert_eq!(inst.input_queues[0].files, vec!["song.flac".to_string()]);
}

#[test]
fn lower_priority_instance_takes_what_remains() {
    // The high-priority instance only accepts .flac; the low-priority
    // copy instance accepts everything left over.
    let mut instances = vec![copy_instance(1, "fallback"), flac_to_ogg_instance(9, "flac2ogg")];
    let listings = vec![listing("/in", &["song.flac", "notes.txt"])];
    run_claiming(&mut instances, &listings);

    assert_eq!(instances[1].input_queues[0].files, vec!["song.flac".to_string()]);
    assert_eq!(instances[0].input_queues[0].files, vec!["notes.txt".to_string()]);
}

#[test]
fn priority_order_is_stable_and_descending() {
    let instances = vec![
        copy_instance(1, "a"),
        copy_instance(5, "b"),
        copy_instance(5, "c"),
        copy_instance(10, "d"),
    ];
    let ord = priority_order(&instances);
    assert_eq!(ord, vec![3, 1, 2, 0]);
}

#[test]
fn orphaned_output_file_is_swept() {
    // The output root holds old.txt, which no current claim covers: the
    // sweep plan deletes it and keeps the claimed file.
    let mut claimed = StringSet::new();
    claimed.insert("keep.txt".to_string());
    let found = vec!["old.txt".to_string(), "keep.txt".to_string()];
    let orphans = orphaned_files(&found, &claimed);
    assert_eq!(orphans, vec!["old.txt".to_string()]);
}

#[test]
fn sweep_never_deletes_a_claimed_output() {
    // After claiming, the output the run is about to write survives the
    // sweep; a stale file does not.
    let mut instances = vec![flac_to_ogg_instance(1, "flac2ogg")];
    let listings = vec![listing("/a", &["song.flac"])];
    let sets = run_claiming(&mut instances, &listings);

    let found = vec!["song.ogg".to_string(), "stale.txt".to_string()];
    let orphans = orphaned_files(&found, &sets.output_paths);
    assert_eq!(orphans, vec!["stale.txt".to_string()]);
}

#[test]
fn string_set_membership() {
    let mut set = StringSet::new();
    assert!(!set.contains(&"x".to_string()));
    assert!(set.insert("x".to_string()));
    assert!(!set.insert("x".to_string()));
    assert!(set.contains(&"x".to_string()));
    assert!(!set.contains(&"y".to_string()));
}
