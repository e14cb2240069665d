//! The configuration surface: plain data describing the output root, the
//! input directories and the transformer instances, and the validated
//! conversion of that data into the engine's types.
//!
//! A filter pattern that does not compile is a configuration error, fatal
//! before orchestration starts; everything else converts without failure.

use vstd::prelude::*;

use crate::command::{CommandArgument, CommandArgumentView, FullCommand, FullCommandView};
use crate::filters::{FilterAction, FilterPattern, FilterPatternView, FilterSet, FilterView};
use crate::input_files::InputDirectory;
use crate::patterns::{glob_compiles, regex_compiles, CompiledGlob, CompiledRegex};
use crate::transformer::{
    CommandTransformer, CommandTransformerView, CopyTransformer, OverwriteBehavior,
    TransformerInstance, TransformerKind, TransformerKindView,
};

verus! {

/// A whole configuration: the output root, the input directories and the
/// transformer instances.
#[derive(Debug, PartialEq)]
pub struct Config {
    pub output_dir: String,
    pub input_dirs: Vec<CfgInputDirectory>,
    pub transformers: Vec<CfgTransformerInstance>,
}

/// One input directory as configured.
#[derive(Debug, PartialEq)]
pub struct CfgInputDirectory {
    pub priority: u32,
    pub path: String,
    pub filters: Vec<CfgFilter>,
}

/// One filter rule as configured: the pattern kind and its text.
#[derive(Debug, PartialEq)]
pub enum CfgFilter {
    Glob(String),
    Regex(String),
}

/// One transformer instance as configured.
#[derive(Debug, PartialEq)]
pub struct CfgTransformerInstance {
    pub name: String,
    pub priority: u32,
    pub overwrite: CfgOverwriteBehavior,
    pub filters: Vec<CfgFilter>,
    pub transformer: CfgTranformerSelection,
}

/// The overwrite policy as configured.
#[derive(Clone, Copy, Debug, PartialEq)]
pub enum CfgOverwriteBehavior {
    Always,
    Never,
    IfNewer,
}

/// Which transformer the instance drives.
#[derive(Debug, PartialEq)]
pub enum CfgTranformerSelection {
    CopyTransformer,
    CommandTransformer(CfgCommandTransformer),
}

/// An external-process transformer as configured.
#[derive(Debug, PartialEq)]
pub struct CfgCommandTransformer {
    pub transform_command: CfgCommand,
    pub check_command: Option<CfgCommand>,
    pub output_file_ext: Option<String>,
}

/// One command line as configured: a program and its argument strings.
#[derive(Debug, PartialEq)]
pub struct CfgCommand {
    pub program: String,
    pub args: Vec<String>,
}

/// The mathematical shape of one configured filter.
pub enum CfgFilterView {
    Glob(Seq<char>),
    Regex(Seq<char>),
}

impl View for CfgFilter {
    type V = CfgFilterView;

    open spec fn view(&self) -> CfgFilterView {
        match self {
            CfgFilter::Glob(s) => CfgFilterView::Glob(s@),
            CfgFilter::Regex(s) => CfgFilterView::Regex(s@),
        }
    }
}

impl DeepView for CfgFilter {
    type V = CfgFilterView;

    open spec fn deep_view(&self) -> CfgFilterView {
        self.view()
    }
}

/// A configuration error: a filter pattern the pattern crates reject,
/// carrying the offending pattern text.
#[derive(Debug)]
pub enum ConfigError {
    InvalidGlobPattern(String),
    InvalidRegexPattern(String),
}

/// The mathematical shape of a configuration error.
pub enum ConfigErrorView {
    InvalidGlobPattern(Seq<char>),
    InvalidRegexPattern(Seq<char>),
}

impl View for ConfigError {
    type V = ConfigErrorView;

    open spec fn view(&self) -> ConfigErrorView {
        match self {
            ConfigError::InvalidGlobPattern(s) => ConfigErrorView::InvalidGlobPattern(s@),
            ConfigError::InvalidRegexPattern(s) => ConfigErrorView::InvalidRegexPattern(s@),
        }
    }
}

/// Whether the pattern crates accept the configured filter's pattern.
pub open spec fn cfg_filter_compiles(f: CfgFilterView) -> bool {
    match f {
        CfgFilterView::Glob(s) => glob_compiles(s),
        CfgFilterView::Regex(s) => regex_compiles(s),
    }
}

/// The pattern a configured filter compiles to.
pub open spec fn cfg_filter_pattern(f: CfgFilterView) -> FilterPatternView {
    match f {
        CfgFilterView::Glob(s) => FilterPatternView::Glob(s),
        CfgFilterView::Regex(s) => FilterPatternView::Regex(s),
    }
}

/// The error reported for a configured filter that does not compile.
pub open spec fn cfg_filter_error(f: CfgFilterView) -> ConfigErrorView {
    match f {
        CfgFilterView::Glob(s) => ConfigErrorView::InvalidGlobPattern(s),
        CfgFilterView::Regex(s) => ConfigErrorView::InvalidRegexPattern(s),
    }
}

impl FilterPattern {
    /// Compiles a configured filter. Returns the compiled pattern exactly
    /// when the pattern crate accepts the text, and otherwise the error
    /// naming that text.
    pub fn from_cfg(f: &CfgFilter) -> (r: Result<FilterPattern, ConfigError>)
        ensures
            r is Ok <==> cfg_filter_compiles(f@),
            r matches Ok(p) ==> p@ == cfg_filter_pattern(f@),
            r matches Err(e) ==> e@ == cfg_filter_error(f@),
    {
        match f {
            CfgFilter::Glob(text) => match CompiledGlob::compile(text.as_str()) {
                Some(g) => Ok(FilterPattern::Glob(g)),
                None => Err(ConfigError::InvalidGlobPattern(text.clone())),
            },
            CfgFilter::Regex(text) => match CompiledRegex::compile(text.as_str()) {
                Some(re) => Ok(FilterPattern::Regex(re)),
                None => Err(ConfigError::InvalidRegexPattern(text.clone())),
            },
        }
    }
}

/// The filter chain a configured rule list builds: each pattern in order,
/// with the `Accept` action.
pub open spec fn spec_filter_chain(fs: Seq<CfgFilterView>) -> Seq<FilterView> {
    fs.map_values(
        |f: CfgFilterView| FilterView { pattern: cfg_filter_pattern(f), action: FilterAction::Accept },
    )
}

/// The position of the first configured filter whose pattern does not
/// compile, or -1 when all compile.
pub open spec fn first_noncompiling(fs: Seq<CfgFilterView>) -> int
    decreases fs.len(),
{
    if fs.len() == 0 {
        -1
    } else if !cfg_filter_compiles(fs[0]) {
        0
    } else {
        let r = first_noncompiling(fs.drop_first());
        if r < 0 {
            -1
        } else {
            r + 1
        }
    }
}

/// Builds the filter chain of a configured rule list: every pattern, in
/// order, appended with the `Accept` action over a reject-by-default
/// chain. Succeeds exactly when every pattern compiles; otherwise reports
/// the first pattern that does not.
pub fn filter_set_from_cfg(filters: &Vec<CfgFilter>) -> (r: Result<FilterSet, ConfigError>)
    ensures
        r is Ok <==> first_noncompiling(filters.deep_view()) == -1,
        r matches Ok(fs) ==> fs@.filters == spec_filter_chain(filters.deep_view())
            && fs@.accept_unmatched == false,
        r matches Err(e) ==> ({
            let k = first_noncompiling(filters.deep_view());
            &&& k >= 0
            &&& e@ == cfg_filter_error(filters.deep_view()[k])
        }),
{
    let ghost fv = filters.deep_view();
    let mut out: FilterSet = FilterSet::new();
    let n: usize = filters.len();
    proof {
        assert(out@.filters =~= spec_filter_chain(fv.take(0)));
    }
    for i in 0..n
        invariant
            n == filters.len(),
            filters.deep_view() == fv,
            first_noncompiling(fv.take(i as int)) == -1,
            out@.filters == spec_filter_chain(fv.take(i as int)),
            out@.accept_unmatched == false,
    {
        proof {
            assert(fv.take(i as int + 1)[i as int] == fv[i as int]);
        }
        match FilterPattern::from_cfg(&filters[i]) {
            Ok(pattern) => {
                out.append(pattern, FilterAction::Accept);
                proof {
                    lemma_first_noncompiling_take_step(fv, i as int);
                    assert(spec_filter_chain(fv.take(i as int + 1)) =~= spec_filter_chain(
                        fv.take(i as int),
                    ).push(FilterView { pattern: cfg_filter_pattern(fv[i as int]), action: FilterAction::Accept }));
                }
            },
            Err(e) => {
                proof {
                    lemma_first_noncompiling_found(fv, i as int);
                }
                return Err(e);
            },
        }
    }
    proof {
        assert(fv.take(n as int) =~= fv);
    }
    Ok(out)
}

/// If every filter before `i` compiles and the one at `i` compiles too,
/// the first `i + 1` filters all compile.
proof fn lemma_first_noncompiling_take_step(fv: Seq<CfgFilterView>, i: int)
    requires
        0 <= i < fv.len(),
        first_noncompiling(fv.take(i)) == -1,
        cfg_filter_compiles(fv[i]),
    ensures
        first_noncompiling(fv.take(i + 1)) == -1,
    decreases i,
{
    if i == 0 {
        assert(fv.take(1)[0] == fv[0]);
        assert(fv.take(1).drop_first() =~= Seq::<CfgFilterView>::empty());
        assert(first_noncompiling(Seq::<CfgFilterView>::empty()) == -1);
        assert(first_noncompiling(fv.take(1).drop_first()) == -1);
    } else {
        assert(fv.take(i)[0] == fv[0]);
        assert(fv.take(i + 1)[0] == fv[0]);
        assert(cfg_filter_compiles(fv[0]));
        assert(fv.take(i + 1).drop_first() =~= fv.drop_first().take(i));
        assert(fv.take(i).drop_first() =~= fv.drop_first().take(i - 1));
        assert(first_noncompiling(fv.drop_first().take(i - 1)) == -1);
        assert(fv.drop_first()[i - 1] == fv[i]);
        lemma_first_noncompiling_take_step(fv.drop_first(), i - 1);
        assert(first_noncompiling(fv.take(i + 1).drop_first()) == -1);
        assert(fv.take(i + 1)[0] == fv[0]);
    }
}

/// If every filter before `i` compiles and the one at `i` does not, the
/// first failure among the first `i + 1` filters — and among any longer
/// prefix sharing them — is at `i`.
proof fn lemma_first_noncompiling_found(fv: Seq<CfgFilterView>, i: int)
    requires
        0 <= i < fv.len(),
        first_noncompiling(fv.take(i)) == -1,
        !cfg_filter_compiles(fv[i]),
    ensures
        first_noncompiling(fv) == i,
    decreases i,
{
    if i == 0 {
    } else {
        assert(fv.take(i)[0] == fv[0]);
        assert(cfg_filter_compiles(fv[0]));
        assert(fv.take(i).drop_first() =~= fv.drop_first().take(i - 1));
        assert(fv.drop_first()[i - 1] == fv[i]);
        lemma_first_noncompiling_found(fv.drop_first(), i - 1);
    }
}

impl InputDirectory {
    /// Builds an input directory from its configuration: the priority and
    /// path carry over, and the filter rules become its chain. Succeeds
    /// exactly when every pattern compiles.
    pub fn from_cfg(dir: &CfgInputDirectory) -> (r: Result<InputDirectory, ConfigError>)
        ensures
            r is Ok <==> first_noncompiling(dir.filters.deep_view()) == -1,
            r matches Ok(d) ==> d.priority == dir.priority && d.path@ == dir.path@
                && d.filters@.filters == spec_filter_chain(dir.filters.deep_view())
                && d.filters@.accept_unmatched == false,
            r matches Err(e) ==> ({
                let k = first_noncompiling(dir.filters.deep_view());
                &&& k >= 0
                &&& e@ == cfg_filter_error(dir.filters.deep_view()[k])
            }),
    {
        let filters: FilterSet = match filter_set_from_cfg(&dir.filters) {
            Ok(fs) => fs,
            Err(e) => {
                return Err(e);
            },
        };
        Ok(InputDirectory { priority: dir.priority, filters, path: dir.path.clone() })
    }
}

/// What a placeholder string resolves to: the input-path marker, the
/// output-path marker, or a literal argument.
pub open spec fn spec_parse_argument(s: Seq<char>) -> CommandArgumentView {
    if s == "!INPUTPATH!"@ {
        CommandArgumentView::InputPath
    } else if s == "!OUTPUTPATH!"@ {
        CommandArgumentView::OutputPath
    } else {
        CommandArgumentView::Arg(s)
    }
}

/// The command a configured command line builds.
pub open spec fn spec_command(program: Seq<char>, args: Seq<Seq<char>>) -> FullCommandView {
    FullCommandView { program, args: args.map_values(|s: Seq<char>| spec_parse_argument(s)) }
}

impl FullCommand {
    /// Builds a command from its configuration: each argument equal to the
    /// input-path or output-path marker becomes that placeholder, every
    /// other argument stays a literal.
    pub fn from_cfg(cfg: &CfgCommand) -> (r: FullCommand)
        ensures
            r@ == spec_command(cfg.program@, cfg.args.deep_view()),
    {
        let ghost av = cfg.args.deep_view();
        let input_marker: String = String::from_str("!INPUTPATH!");
        let output_marker: String = String::from_str("!OUTPUTPATH!");
        let mut cmd: FullCommand = FullCommand::new(cfg.program.clone());
        let n: usize = cfg.args.len();
        proof {
            assert(cmd@.args =~= av.take(0).map_values(|s: Seq<char>| spec_parse_argument(s)));
        }
        for i in 0..n
            invariant
                n == cfg.args.len(),
                cfg.args.deep_view() == av,
                input_marker@ == "!INPUTPATH!"@,
                output_marker@ == "!OUTPUTPATH!"@,
                cmd@.program == cfg.program@,
                cmd@.args == av.take(i as int).map_values(|s: Seq<char>| spec_parse_argument(s)),
        {
            let ghost args0 = cmd@.args;
            let arg: &String = &cfg.args[i];
            proof {
                assert(arg@ == av[i as int]);
            }
            let parsed: CommandArgument = if arg.eq(&input_marker) {
                CommandArgument::InputPath
            } else if arg.eq(&output_marker) {
                CommandArgument::OutputPath
            } else {
                CommandArgument::Arg(arg.clone())
            };
            proof {
                assert(parsed@ == spec_parse_argument(av[i as int]));
            }
            cmd.args.push(parsed);
            proof {
                assert(cmd@.args =~= args0.push(spec_parse_argument(av[i as int])));
                assert(av.take(i as int + 1) =~= av.take(i as int).push(av[i as int]));
                assert(cmd@.args =~= av.take(i as int + 1).map_values(
                    |s: Seq<char>| spec_parse_argument(s),
                ));
            }
        }
        proof {
            assert(av.take(n as int) =~= av);
        }
        cmd
    }
}

/// The transformer kind a configured selection builds.
pub open spec fn spec_selection_kind(s: &CfgTranformerSelection) -> TransformerKindView {
    match s {
        CfgTranformerSelection::CopyTransformer => TransformerKindView::Copy,
        CfgTranformerSelection::CommandTransformer(c) => TransformerKindView::Command(
            CommandTransformerView {
                transform_command: spec_command(
                    c.transform_command.program@,
                    c.transform_command.args.deep_view(),
                ),
                check_command: match c.check_command {
                    Some(ref cc) => Some(spec_command(cc.program@, cc.args.deep_view())),
                    None => None,
                },
                output_file_extension: match c.output_file_ext {
                    Some(ref e) => Some(e@),
                    None => None,
                },
            },
        ),
    }
}

/// The overwrite behavior a configured policy selects.
pub open spec fn spec_overwrite_from_cfg(cfg: CfgOverwriteBehavior) -> OverwriteBehavior {
    match cfg {
        CfgOverwriteBehavior::Always => OverwriteBehavior::Always,
        CfgOverwriteBehavior::Never => OverwriteBehavior::Never,
        CfgOverwriteBehavior::IfNewer => OverwriteBehavior::IfNewer,
    }
}

impl From<CfgOverwriteBehavior> for OverwriteBehavior {
    fn from(cfg: CfgOverwriteBehavior) -> (r: OverwriteBehavior) {
        match cfg {
            CfgOverwriteBehavior::Always => OverwriteBehavior::Always,
            CfgOverwriteBehavior::Never => OverwriteBehavior::Never,
            CfgOverwriteBehavior::IfNewer => OverwriteBehavior::IfNewer,
        }
    }
}

impl vstd::std_specs::convert::FromSpecImpl<CfgOverwriteBehavior> for OverwriteBehavior {
    open spec fn obeys_from_spec() -> bool {
        true
    }

    open spec fn from_spec(cfg: CfgOverwriteBehavior) -> OverwriteBehavior {
        spec_overwrite_from_cfg(cfg)
    }
}

impl TransformerInstance {
    /// Builds a transformer instance from its configuration: name,
    /// priority, overwrite policy and transformer selection carry over,
    /// the filter rules become its chain, and its queues start empty.
    /// Succeeds exactly when every filter pattern compiles.
    pub fn from_cfg(cfg: &CfgTransformerInstance) -> (r: Result<TransformerInstance, ConfigError>)
        ensures
            r is Ok <==> first_noncompiling(cfg.filters.deep_view()) == -1,
            r matches Ok(inst) ==> inst@.priority == cfg.priority && inst@.name == cfg.name@
                && inst@.overwrite_behavior == spec_overwrite_from_cfg(cfg.overwrite)
                && inst@.transformer == spec_selection_kind(&cfg.transformer)
                && inst@.filter.filters == spec_filter_chain(cfg.filters.deep_view())
                && inst@.filter.accept_unmatched == false && inst@.input_queues == Seq::<
                crate::transformer::InputQueueView,
            >::empty(),
            r matches Err(e) ==> ({
                let k = first_noncompiling(cfg.filters.deep_view());
                &&& k >= 0
                &&& e@ == cfg_filter_error(cfg.filters.deep_view()[k])
            }),
    {
        let filter: FilterSet = match filter_set_from_cfg(&cfg.filters) {
            Ok(fs) => fs,
            Err(e) => {
                return Err(e);
            },
        };
        let transformer: TransformerKind = match &cfg.transformer {
            CfgTranformerSelection::CopyTransformer => TransformerKind::Copy(CopyTransformer),
            CfgTranformerSelection::CommandTransformer(c) => {
                let transform_command: FullCommand = FullCommand::from_cfg(&c.transform_command);
                let check_command: Option<FullCommand> = match &c.check_command {
                    Some(cc) => Some(FullCommand::from_cfg(cc)),
                    None => None,
                };
                let output_file_extension: Option<String> = match &c.output_file_ext {
                    Some(e) => Some(e.clone()),
                    None => None,
                };
                TransformerKind::Command(
                    CommandTransformer { transform_command, check_command, output_file_extension },
                )
            },
        };
        let overwrite_behavior: OverwriteBehavior = OverwriteBehavior::from(cfg.overwrite);
        let mut inst: TransformerInstance = TransformerInstance::new(
            cfg.priority,
            overwrite_behavior,
            cfg.name.clone(),
            transformer,
        );
        inst.filter = filter;
        Ok(inst)
    }
}

} // verus!
