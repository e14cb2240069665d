use condenser::CfgCommand;
use condenser::CfgCommandTransformer;
use condenser::CfgFilter;
use condenser::CfgInputDirectory;
use condenser::CfgOverwriteBehavior;
use condenser::CfgTranformerSelection;
use condenser::CfgTransformerInstance;
use condenser::ConfigError;
use condenser::FilterPattern;
use condenser::FullCommand;
use condenser::InputDirectory;
use condenser::OverwriteBehavior;
use condenser::TransformerInstance;

#[test]
fn command_from_cfg_parses_placeholders() {
    let cfg = CfgCommand {
        program: "convert".to_string(),
        args: vec![
            "-fast".to_string(),
            "!INPUTPATH!".to_string(),
            "!OUTPUTPATH!".to_string(),
        ],
    };
    let cmd = FullCommand::from_cfg(&cfg);
    assert_eq!(cmd.program, "convert");
    let resolved = cmd.resolve_arguments("in.flac", "out.ogg");
    assert_eq!(
        resolved,
        vec![
            "-fast".to_string(),
            "in.flac".to_string(),
            "out.ogg".to_string(),
        ]
    );
}

#[test]
fn invalid_regex_is_a_config_error() {
    let err = match FilterPattern::from_cfg(&CfgFilter::Regex("(unclosed".to_string())) {
        Ok(_) => panic!("the pattern should not compile"),
        Err(e) => e,
    };
    assert!(matches!(err, ConfigError::InvalidRegexPattern(p) if p == "(unclosed"));
}

#[test]
fn invalid_glob_is_a_config_error() {
    let err = match FilterPattern::from_cfg(&CfgFilter::Glob("bad[range".to_string())) {
        Ok(_) => panic!("the pattern should not compile"),
        Err(e) => e,
    };
    assert!(matches!(err, ConfigError::InvalidGlobPattern(p) if p == "bad[range"));
}

#[test]
fn input_directory_from_cfg_builds_accepting_chain() {
    let cfg = CfgInputDirectory {
        priority: 7,
        path: "/music".to_string(),
        filters: vec![CfgFilter::Glob("*.flac".to_string())],
    };
    let dir = InputDirectory::from_cfg(&cfg).unwrap();
    assert_eq!(dir.priority, 7);
    assert_eq!(dir.path, "/music");
    assert!(dir.filters.is_acceptable("song.flac"));
    assert!(!dir.filters.is_acceptable("song.mp3"));
}

#[test]
fn input_directory_from_cfg_reports_first_bad_pattern() {
    let cfg = CfgInputDirectory {
        priority: 1,
        path: "/music".to_string(),
        filters: vec![
            CfgFilter::Glob("*.flac".to_string()),
            CfgFilter::Regex("(oops".to_string()),
        ],
    };
    let err = match InputDirectory::from_cfg(&cfg) {
        Ok(_) => panic!("the configuration should be rejected"),
        Err(e) => e,
    };
    assert!(matches!(err, ConfigError::InvalidRegexPattern(p) if p == "(oops"));
}

#[test]
fn transformer_instance_from_cfg_carries_everything_over() {
    let cfg = CfgTransformerInstance {
        name: "flac2ogg".to_string(),
        priority: 42,
        overwrite: CfgOverwriteBehavior::IfNewer,
        filters: vec![CfgFilter::Glob("*.flac".to_string())],
        transformer: CfgTranformerSelection::CommandTransformer(CfgCommandTransformer {
            transform_command: CfgCommand {
                program: "encoder".to_string(),
                args: vec!["!INPUTPATH!".to_string(), "!OUTPUTPATH!".to_string()],
            },
            check_command: None,
            output_file_ext: Some("ogg".to_string()),
        }),
    };
    let inst = TransformerInstance::from_cfg(&cfg).unwrap();
    assert_eq!(inst.name, "flac2ogg");
    assert_eq!(inst.priority, 42);
    assert_eq!(inst.overwrite_behavior, OverwriteBehavior::IfNewer);
    assert!(inst.filter.is_acceptable("song.flac"));
    assert!(!inst.filter.is_acceptable("song.mp3"));
    assert_eq!(inst.input_queues.len(), 0);
}

#[test]
fn copy_selection_builds_a_copy_instance() {
    let cfg = CfgTransformerInstance {
        name: "copy".to_string(),
        priority: 1,
        overwrite: CfgOverwriteBehavior::Never,
        filters: vec![],
        transformer: CfgTranformerSelection::CopyTransformer,
    };
    let inst = TransformerInstance::from_cfg(&cfg).unwrap();
    assert_eq!(inst.overwrite_behavior, OverwriteBehavior::Never);
    // An empty chain rejects by default.
    assert!(!inst.filter.is_acceptable("anything"));
}

#[test]
fn overwrite_behavior_from_cfg() {
    assert_eq!(
        OverwriteBehavior::from(CfgOverwriteBehavior::Always),
        OverwriteBehavior::Always
    );
    assert_eq!(
        OverwriteBehavior::from(CfgOverwriteBehavior::Never),
        OverwriteBehavior::Never
    );
    assert_eq!(
        OverwriteBehavior::from(CfgOverwriteBehavior::IfNewer),
        OverwriteBehavior::IfNewer
    );
}
