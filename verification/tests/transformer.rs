use condenser::CommandArgument;
use condenser::CommandError;
use condenser::CommandTransformer;
use condenser::CopyTransformer;
use condenser::CompiledGlob;
use condenser::FilterAction;
use condenser::FullCommand;
use condenser::InputId;
use condenser::OverwriteBehavior;
use condenser::StringSet;
use condenser::Transformer;
use condenser::TransformerInstance;
use condenser::TransformerKind;

#[test]
fn input_id_exposes_its_parts() {
    let id = InputId::new("/music", "albums/song.flac");
    assert_eq!(id.dir_path(), "/music");
    assert_eq!(id.file_path(), "albums/song.flac");
}

#[test]
fn copy_transformer_decisions() {
    let t = CopyTransformer;
    let id = InputId::new("/in", "a/song.flac");
    assert!(t.can_handle(&id));
    assert_eq!(t.determine_output_id(&id).0, "a/song");
    assert_eq!(t.determine_output_path(&id), "a/song.flac");
}

#[test]
fn command_transformer_decisions() {
    let t = CommandTransformer {
        transform_command: FullCommand::new("encoder".to_string()),
        check_command: None,
        output_file_extension: Some("ogg".to_string()),
    };
    let id = InputId::new("/in", "a/song.flac");
    assert!(t.can_handle(&id));
    assert_eq!(t.determine_output_id(&id).0, "a/song");
    assert_eq!(t.determine_output_path(&id), "a/song.ogg");

    let plain = CommandTransformer {
        transform_command: FullCommand::new("touchup".to_string()),
        check_command: None,
        output_file_extension: None,
    };
    assert_eq!(plain.determine_output_path(&id), "a/song.flac");
}

#[test]
fn resolve_arguments_substitutes_placeholders() {
    let mut cmd = FullCommand::new("convert".to_string());
    cmd.args.push(CommandArgument::Arg("-fast".to_string()));
    cmd.args.push(CommandArgument::InputPath);
    cmd.args.push(CommandArgument::OutputPath);
    let resolved = cmd.resolve_arguments("/in/a.flac", "/out/a.ogg");
    assert_eq!(
        resolved,
        vec![
            "-fast".to_string(),
            "/in/a.flac".to_string(),
            "/out/a.ogg".to_string(),
        ]
    );
}

#[test]
fn command_error_constructors() {
    assert!(matches!(
        CommandError::from_status_code(2),
        CommandError::ExitStatus(2)
    ));
    assert!(matches!(
        CommandError::from_error("spawn failed".to_string()),
        CommandError::Error(m) if m == "spawn failed"
    ));
}

#[test]
fn take_queued_work_drains_queues_into_paths() {
    let mut inst = TransformerInstance::new(
        1,
        OverwriteBehavior::Always,
        "flac2ogg".to_string(),
        TransformerKind::Command(CommandTransformer {
            transform_command: FullCommand::new("encoder".to_string()),
            check_command: None,
            output_file_extension: Some("ogg".to_string()),
        }),
    );
    inst.filter
        .append_glob(CompiledGlob::compile("*.flac").unwrap(), FilterAction::Accept);

    let mut pending = vec!["song.flac".to_string()];
    let mut ids = StringSet::new();
    let mut paths = StringSet::new();
    let count = inst.claim_outputs("/music", &mut pending, &mut ids, &mut paths);
    assert_eq!(count, 1);

    let work = inst.take_queued_work("/out");
    assert_eq!(work.len(), 1);
    assert_eq!(work[0].input_path, "/music/song.flac");
    assert_eq!(work[0].output_path, "/out/song.ogg");
    assert_eq!(inst.input_queues.len(), 0);
}

#[test]
fn claims_group_by_source_directory() {
    let mut inst = TransformerInstance::new(
        1,
        OverwriteBehavior::Always,
        "copy".to_string(),
        TransformerKind::Copy(CopyTransformer),
    );
    inst.filter.accept_unmatched = true;

    let mut ids = StringSet::new();
    let mut paths = StringSet::new();
    let mut pending_a = vec!["one.txt".to_string()];
    let mut pending_b = vec!["two.txt".to_string()];
    let mut pending_a2 = vec!["three.txt".to_string()];
    inst.claim_outputs("/a", &mut pending_a, &mut ids, &mut paths);
    inst.claim_outputs("/b", &mut pending_b, &mut ids, &mut paths);
    inst.claim_outputs("/a", &mut pending_a2, &mut ids, &mut paths);

    assert_eq!(inst.input_queues.len(), 2);
    assert_eq!(inst.input_queues[0].dir_path, "/a");
    assert_eq!(
        inst.input_queues[0].files,
        vec!["one.txt".to_string(), "three.txt".to_string()]
    );
    assert_eq!(inst.input_queues[1].dir_path, "/b");
    assert_eq!(inst.input_queues[1].files, vec!["two.txt".to_string()]);
}
