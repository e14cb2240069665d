//! Transformers and transformer instances.
//!
//! A transformer decides whether it can handle an input, which logical
//! output identity and which relative output path the input produces, and
//! performs the byte-level transformation (the byte-level part is I/O and
//! is carried out by the caller against the contract stated on
//! [`OverwriteDecision`] and the queue layout). A transformer instance
//! wraps a transformer with a priority, a name, a filter chain, an
//! overwrite policy and a per-run queue of claimed files.

use vstd::prelude::*;

use crate::command::{FullCommand, FullCommandView};
use crate::filters::{filter_set_accepts, FilterSet, FilterSetView};
use crate::paths::{
    is_absolute_path, join, spec_join, spec_strip_extension, spec_with_extension, strip_extension,
    with_extension,
};
use crate::sets::StringSet;

verus! {

/// Indicates how the transformer should behave when the output file
/// already exists.
#[derive(Clone, Copy, Debug, PartialEq, Eq, Structural)]
pub enum OverwriteBehavior {
    /// Existing files will always be overwritten.
    Always,
    /// Existing files will never be overwritten.
    Never,
    /// Existing files will be overwritten iff the input file is newer
    /// than the existing file.
    IfNewer,
}

/// An ID uniquely identifying an input: the owning directory's absolute
/// path and the file's path relative to that directory.
pub struct InputId<'a, 'b> {
    dir_path: &'a str,
    file_path: &'b str,
}

/// The mathematical shape of an input identity.
pub struct InputIdView {
    pub dir_path: Seq<char>,
    pub file_path: Seq<char>,
}

impl<'a, 'b> View for InputId<'a, 'b> {
    type V = InputIdView;

    closed spec fn view(&self) -> InputIdView {
        InputIdView { dir_path: self.dir_path@, file_path: self.file_path@ }
    }
}

impl<'a, 'b> InputId<'a, 'b> {
    /// Creates a new InputId. `dir_path` must be absolute, and `file_path`
    /// must be relative.
    pub fn new(dir_path: &'a str, file_path: &'b str) -> (r: InputId<'a, 'b>)
        requires
            is_absolute_path(dir_path@),
            !is_absolute_path(file_path@),
        ensures
            r@ == (InputIdView { dir_path: dir_path@, file_path: file_path@ }),
    {
        InputId { dir_path, file_path }
    }

    /// Returns the directory path.
    pub fn dir_path(&self) -> (r: &'a str)
        ensures
            r@ == self@.dir_path,
    {
        self.dir_path
    }

    /// Returns the file path.
    pub fn file_path(&self) -> (r: &'b str)
        ensures
            r@ == self@.file_path,
    {
        self.file_path
    }
}

/// An ID uniquely identifying an output. Equality of the carried text is
/// its only meaning.
#[derive(Clone, Debug, PartialEq, Eq, Hash)]
pub struct OutputId(pub String);

impl View for OutputId {
    type V = Seq<char>;

    open spec fn view(&self) -> Seq<char> {
        self.0@
    }
}

/// The capability interface of a transformer: the decisions it makes about
/// an input, with the decision each executable method returns pinned by a
/// spec function of the same instance.
pub trait Transformer {
    /// What `can_handle` returns.
    spec fn spec_can_handle(&self, input: InputIdView) -> bool;

    /// What `determine_output_id` returns.
    spec fn spec_output_id(&self, input: InputIdView) -> Seq<char>;

    /// What `determine_output_path` returns.
    spec fn spec_output_path(&self, input: InputIdView) -> Seq<char>;

    /// Tests whether or not this transformer can handle the given input
    /// file.
    fn can_handle(&self, input: &InputId) -> (r: bool)
        ensures
            r == self.spec_can_handle(input@),
    ;

    /// Determines the output id of a transformation.
    fn determine_output_id(&self, input: &InputId) -> (r: OutputId)
        ensures
            r@ == self.spec_output_id(input@),
    ;

    /// Determines the relative path of the output of a transformation.
    fn determine_output_path(&self, input: &InputId) -> (r: String)
        ensures
            r@ == self.spec_output_path(input@),
    ;
}

/// A simple transformer that copies the entire file located at the input
/// path to the output path.
pub struct CopyTransformer;

impl Transformer for CopyTransformer {
    open spec fn spec_can_handle(&self, input: InputIdView) -> bool {
        true
    }

    open spec fn spec_output_id(&self, input: InputIdView) -> Seq<char> {
        spec_strip_extension(input.file_path)
    }

    open spec fn spec_output_path(&self, input: InputIdView) -> Seq<char> {
        input.file_path
    }

    fn can_handle(&self, input: &InputId) -> (r: bool) {
        true
    }

    fn determine_output_id(&self, input: &InputId) -> (r: OutputId) {
        OutputId(strip_extension(input.file_path()))
    }

    fn determine_output_path(&self, input: &InputId) -> (r: String) {
        input.file_path().to_owned()
    }
}

/// A transformer that runs an external command.
pub struct CommandTransformer {
    /// The command to execute the transformation.
    pub transform_command: FullCommand,
    /// The command to check the ability of the transformer to handle the
    /// input file. If `None`, it is assumed that the transformer can always
    /// handle the input file.
    pub check_command: Option<FullCommand>,
    /// The output file extension - uses the input file name if `None`.
    pub output_file_extension: Option<String>,
}

/// The mathematical shape of a command transformer.
pub struct CommandTransformerView {
    pub transform_command: FullCommandView,
    pub check_command: Option<FullCommandView>,
    pub output_file_extension: Option<Seq<char>>,
}

impl View for CommandTransformer {
    type V = CommandTransformerView;

    open spec fn view(&self) -> CommandTransformerView {
        CommandTransformerView {
            transform_command: self.transform_command@,
            check_command: match self.check_command {
                Some(ref c) => Some(c@),
                None => None,
            },
            output_file_extension: match self.output_file_extension {
                Some(ref e) => Some(e@),
                None => None,
            },
        }
    }
}

impl Transformer for CommandTransformer {
    open spec fn spec_can_handle(&self, input: InputIdView) -> bool {
        true
    }

    open spec fn spec_output_id(&self, input: InputIdView) -> Seq<char> {
        spec_strip_extension(input.file_path)
    }

    open spec fn spec_output_path(&self, input: InputIdView) -> Seq<char> {
        match self@.output_file_extension {
            Some(e) => spec_with_extension(input.file_path, e),
            None => input.file_path,
        }
    }

    fn can_handle(&self, input: &InputId) -> (r: bool) {
        true
    }

    fn determine_output_id(&self, input: &InputId) -> (r: OutputId) {
        OutputId(strip_extension(input.file_path()))
    }

    fn determine_output_path(&self, input: &InputId) -> (r: String) {
        match &self.output_file_extension {
            Some(e) => with_extension(input.file_path(), e.as_str()),
            None => input.file_path().to_owned(),
        }
    }
}

/// The transformers the orchestrator can drive. New kinds extend the
/// pipeline by adding a variant here.
pub enum TransformerKind {
    /// Plain pass-through copy.
    Copy(CopyTransformer),
    /// External-process invocation.
    Command(CommandTransformer),
}

/// The mathematical shape of a transformer kind.
pub enum TransformerKindView {
    Copy,
    Command(CommandTransformerView),
}

impl View for TransformerKind {
    type V = TransformerKindView;

    open spec fn view(&self) -> TransformerKindView {
        match self {
            TransformerKind::Copy(_) => TransformerKindView::Copy,
            TransformerKind::Command(c) => TransformerKindView::Command(c@),
        }
    }
}

/// Whether the transformer kind `k` can handle `input`.
pub open spec fn kind_can_handle(k: TransformerKindView, input: InputIdView) -> bool {
    match k {
        TransformerKindView::Copy => true,
        TransformerKindView::Command(_) => true,
    }
}

/// The logical output identity the kind `k` derives from `input`: the
/// file's relative path with its extension removed.
pub open spec fn kind_output_id(k: TransformerKindView, input: InputIdView) -> Seq<char> {
    match k {
        TransformerKindView::Copy => spec_strip_extension(input.file_path),
        TransformerKindView::Command(_) => spec_strip_extension(input.file_path),
    }
}

/// The relative output path the kind `k` derives from `input`.
pub open spec fn kind_output_path(k: TransformerKindView, input: InputIdView) -> Seq<char> {
    match k {
        TransformerKindView::Copy => input.file_path,
        TransformerKindView::Command(c) => match c.output_file_extension {
            Some(e) => spec_with_extension(input.file_path, e),
            None => input.file_path,
        },
    }
}

impl Transformer for TransformerKind {
    open spec fn spec_can_handle(&self, input: InputIdView) -> bool {
        kind_can_handle(self@, input)
    }

    open spec fn spec_output_id(&self, input: InputIdView) -> Seq<char> {
        kind_output_id(self@, input)
    }

    open spec fn spec_output_path(&self, input: InputIdView) -> Seq<char> {
        kind_output_path(self@, input)
    }

    fn can_handle(&self, input: &InputId) -> (r: bool) {
        match self {
            TransformerKind::Copy(t) => t.can_handle(input),
            TransformerKind::Command(t) => t.can_handle(input),
        }
    }

    fn determine_output_id(&self, input: &InputId) -> (r: OutputId) {
        match self {
            TransformerKind::Copy(t) => t.determine_output_id(input),
            TransformerKind::Command(t) => t.determine_output_id(input),
        }
    }

    fn determine_output_path(&self, input: &InputId) -> (r: String) {
        match self {
            TransformerKind::Copy(t) => t.determine_output_path(input),
            TransformerKind::Command(t) => t.determine_output_path(input),
        }
    }
}

/// The files an instance has claimed out of one source directory, in claim
/// order.
pub struct InputQueue {
    /// The source directory the files were discovered under.
    pub dir_path: String,
    /// The claimed relative paths, in the order they were claimed.
    pub files: Vec<String>,
}

/// The mathematical shape of one queue.
#[verifier::ext_equal]
pub struct InputQueueView {
    pub dir_path: Seq<char>,
    pub files: Seq<Seq<char>>,
}

impl View for InputQueue {
    type V = InputQueueView;

    open spec fn view(&self) -> InputQueueView {
        InputQueueView { dir_path: self.dir_path@, files: self.files.deep_view() }
    }
}

impl DeepView for InputQueue {
    type V = InputQueueView;

    open spec fn deep_view(&self) -> InputQueueView {
        self.view()
    }
}

/// Metadata about an individual instance of a transformer.
pub struct TransformerInstance {
    /// The priority - instances with higher priorities claim first.
    pub priority: u32,
    /// How the instance behaves when the output file already exists.
    pub overwrite_behavior: OverwriteBehavior,
    /// The display name.
    pub name: String,
    /// The filter that files should pass before being transformed.
    pub filter: FilterSet,
    /// The transformer itself.
    pub transformer: TransformerKind,
    /// Contains the files enqueued for transformation, one queue per
    /// source directory.
    pub input_queues: Vec<InputQueue>,
}

/// The mathematical shape of an instance.
#[verifier::ext_equal]
pub struct TransformerInstanceView {
    pub priority: u32,
    pub overwrite_behavior: OverwriteBehavior,
    pub name: Seq<char>,
    pub filter: FilterSetView,
    pub transformer: TransformerKindView,
    pub input_queues: Seq<InputQueueView>,
}

impl View for TransformerInstance {
    type V = TransformerInstanceView;

    open spec fn view(&self) -> TransformerInstanceView {
        TransformerInstanceView {
            priority: self.priority,
            overwrite_behavior: self.overwrite_behavior,
            name: self.name@,
            filter: self.filter@,
            transformer: self.transformer@,
            input_queues: self.input_queues.deep_view(),
        }
    }
}

/// One pending transformation: the absolute path of the input file and the
/// absolute path the transformation will write to.
pub struct WorkItem {
    /// The absolute path of the input file.
    pub input_path: String,
    /// The absolute path of the output file.
    pub output_path: String,
}

/// The mathematical shape of one work item.
#[verifier::ext_equal]
pub struct WorkItemView {
    pub input_path: Seq<char>,
    pub output_path: Seq<char>,
}

impl View for WorkItem {
    type V = WorkItemView;

    open spec fn view(&self) -> WorkItemView {
        WorkItemView { input_path: self.input_path@, output_path: self.output_path@ }
    }
}

impl DeepView for WorkItem {
    type V = WorkItemView;

    open spec fn deep_view(&self) -> WorkItemView {
        self.view()
    }
}

/// The work items one queue yields under the transformer kind `k`: for
/// every queued file, the input path is the file under its source
/// directory, and the output path is the transformer-determined relative
/// path under `output_dir`.
pub open spec fn queue_work_items(
    k: TransformerKindView,
    q: InputQueueView,
    output_dir: Seq<char>,
) -> Seq<WorkItemView> {
    q.files.map_values(
        |f: Seq<char>| WorkItemView {
            input_path: spec_join(q.dir_path, f),
            output_path: spec_join(
                output_dir,
                kind_output_path(k, InputIdView { dir_path: q.dir_path, file_path: f }),
            ),
        },
    )
}

/// The work items all queues yield, queue by queue in order.
pub open spec fn spec_work_items(
    k: TransformerKindView,
    qs: Seq<InputQueueView>,
    output_dir: Seq<char>,
) -> Seq<WorkItemView>
    decreases qs.len(),
{
    if qs.len() == 0 {
        Seq::empty()
    } else {
        queue_work_items(k, qs[0], output_dir) + spec_work_items(k, qs.drop_first(), output_dir)
    }
}

impl DeepView for TransformerInstance {
    type V = TransformerInstanceView;

    open spec fn deep_view(&self) -> TransformerInstanceView {
        self.view()
    }
}

/// Whether the instance claims `file` of the directory `dir_path`, given
/// the output identities claimed so far: its chain must accept the file,
/// its transformer must handle it, and the output identity must be
/// unclaimed.
pub open spec fn instance_claims_file(
    inst: TransformerInstanceView,
    dir_path: Seq<char>,
    file: Seq<char>,
    claimed_ids: Set<Seq<char>>,
) -> bool {
    let input = InputIdView { dir_path, file_path: file };
    &&& filter_set_accepts(inst.filter, file)
    &&& kind_can_handle(inst.transformer, input)
    &&& !claimed_ids.contains(kind_output_id(inst.transformer, input))
}

/// What one claiming pass of one instance over one directory's pending
/// files produces.
#[verifier::ext_equal]
pub struct ClaimOutcome {
    /// The files left pending, in their original order.
    pub remaining: Seq<Seq<char>>,
    /// The files claimed, in their original order.
    pub claimed: Seq<Seq<char>>,
    /// The claimed-output-identity set after the pass.
    pub ids: Set<Seq<char>>,
    /// The claimed-output-path set after the pass.
    pub paths: Set<Seq<char>>,
}

/// The claiming pass of `inst` over `files` of directory `dir_path`: each
/// file in order is either claimed (its identity and path are recorded) or
/// left pending.
pub open spec fn claim_pass(
    inst: TransformerInstanceView,
    dir_path: Seq<char>,
    files: Seq<Seq<char>>,
    ids: Set<Seq<char>>,
    paths: Set<Seq<char>>,
) -> ClaimOutcome
    decreases files.len(),
{
    if files.len() == 0 {
        ClaimOutcome { remaining: Seq::empty(), claimed: Seq::empty(), ids, paths }
    } else {
        let f = files[0];
        let input = InputIdView { dir_path, file_path: f };
        if instance_claims_file(inst, dir_path, f, ids) {
            let rest = claim_pass(
                inst,
                dir_path,
                files.drop_first(),
                ids.insert(kind_output_id(inst.transformer, input)),
                paths.insert(kind_output_path(inst.transformer, input)),
            );
            ClaimOutcome {
                remaining: rest.remaining,
                claimed: seq![f] + rest.claimed,
                ids: rest.ids,
                paths: rest.paths,
            }
        } else {
            let rest = claim_pass(inst, dir_path, files.drop_first(), ids, paths);
            ClaimOutcome {
                remaining: seq![f] + rest.remaining,
                claimed: rest.claimed,
                ids: rest.ids,
                paths: rest.paths,
            }
        }
    }
}

/// The position of the queue for `dir` among `qs`, or -1 when none exists.
pub open spec fn queue_dir_index(qs: Seq<InputQueueView>, dir: Seq<char>) -> int
    decreases qs.len(),
{
    if qs.len() == 0 {
        -1
    } else if qs[0].dir_path == dir {
        0
    } else {
        let r = queue_dir_index(qs.drop_first(), dir);
        if r < 0 {
            -1
        } else {
            r + 1
        }
    }
}

/// The queues `qs` after appending `claimed` under `dir`: nothing changes
/// when nothing was claimed; otherwise the claimed files join the existing
/// queue for `dir`, or form a new final queue.
pub open spec fn queues_after_claim(
    qs: Seq<InputQueueView>,
    dir: Seq<char>,
    claimed: Seq<Seq<char>>,
) -> Seq<InputQueueView> {
    if claimed.len() == 0 {
        qs
    } else {
        let k = queue_dir_index(qs, dir);
        if k < 0 {
            qs.push(InputQueueView { dir_path: dir, files: claimed })
        } else {
            qs.update(k, InputQueueView { dir_path: dir, files: qs[k].files + claimed })
        }
    }
}

/// The instance after a claiming pass over `dir`: only its queues change.
pub open spec fn instance_after_claim(
    inst: TransformerInstanceView,
    dir: Seq<char>,
    claimed: Seq<Seq<char>>,
) -> TransformerInstanceView {
    TransformerInstanceView {
        input_queues: queues_after_claim(inst.input_queues, dir, claimed),
        ..inst
    }
}

proof fn lemma_queue_dir_index_found(qs: Seq<InputQueueView>, dir: Seq<char>, j: int)
    requires
        0 <= j < qs.len(),
        qs[j].dir_path == dir,
        forall|k: int| 0 <= k < j ==> qs[k].dir_path != dir,
    ensures
        queue_dir_index(qs, dir) == j,
    decreases qs.len(),
{
    if j == 0 {
    } else {
        assert(qs[0].dir_path != dir);
        assert(qs.drop_first()[j - 1] == qs[j]);
        assert(forall|k: int| 0 <= k < j - 1 ==> qs.drop_first()[k] == qs[k + 1]);
        lemma_queue_dir_index_found(qs.drop_first(), dir, j - 1);
    }
}

proof fn lemma_queue_dir_index_none(qs: Seq<InputQueueView>, dir: Seq<char>)
    requires
        forall|k: int| 0 <= k < qs.len() ==> qs[k].dir_path != dir,
    ensures
        queue_dir_index(qs, dir) == -1,
    decreases qs.len(),
{
    if qs.len() > 0 {
        assert(forall|k: int| 0 <= k < qs.drop_first().len() ==> qs.drop_first()[k] == qs[k + 1]);
        lemma_queue_dir_index_none(qs.drop_first(), dir);
    }
}

impl TransformerInstance {
    /// Creates a new instance of a transformer, with the specified
    /// priority, overwrite behavior, name, and transformer object; its
    /// filter chain is empty and its queues are empty.
    pub fn new(
        priority: u32,
        overwrite_behavior: OverwriteBehavior,
        name: String,
        transformer: TransformerKind,
    ) -> (r: TransformerInstance)
        ensures
            r@.priority == priority,
            r@.overwrite_behavior == overwrite_behavior,
            r@.name == name@,
            r@.filter.filters == Seq::<crate::filters::FilterView>::empty(),
            r@.filter.accept_unmatched == false,
            r@.transformer == transformer@,
            r@.input_queues == Seq::<InputQueueView>::empty(),
    {
        let r = TransformerInstance {
            priority,
            overwrite_behavior,
            name,
            transformer,
            filter: FilterSet::new(),
            input_queues: Vec::new(),
        };
        proof {
            assert(r@.input_queues =~= Seq::<InputQueueView>::empty());
        }
        r
    }

    /// Finds acceptable input files within `unprocessed_files`, removes
    /// them from it, adds them to the input queue associated with
    /// `input_dir_path`, and records their output identities and output
    /// paths in the run-wide sets. Returns how many files were claimed.
    pub fn claim_outputs(
        &mut self,
        input_dir_path: &str,
        unprocessed_files: &mut Vec<String>,
        claimed_outputs: &mut StringSet,
        output_paths: &mut StringSet,
    ) -> (count: u64)
        ensures
            ({
                let out = claim_pass(
                    old(self)@,
                    input_dir_path@,
                    old(unprocessed_files).deep_view(),
                    old(claimed_outputs)@,
                    old(output_paths)@,
                );
                &&& final(unprocessed_files).deep_view() == out.remaining
                &&& final(claimed_outputs)@ == out.ids
                &&& final(output_paths)@ == out.paths
                &&& final(self)@ == instance_after_claim(old(self)@, input_dir_path@, out.claimed)
                &&& count == out.claimed.len()
            }),
    {
        let ghost inst0 = self@;
        let ghost dirv = input_dir_path@;
        let ghost files0 = unprocessed_files.deep_view();
        let ghost ids0 = claimed_outputs@;
        let ghost paths0 = output_paths@;
        let ghost out_full = claim_pass(inst0, dirv, files0, ids0, paths0);

        let n: usize = unprocessed_files.len();
        let mut remaining: Vec<String> = Vec::new();
        let mut claimed: Vec<String> = Vec::new();
        proof {
            assert(files0.skip(0) =~= files0);
            assert(remaining.deep_view() + out_full.remaining =~= out_full.remaining);
            assert(claimed.deep_view() + out_full.claimed =~= out_full.claimed);
        }
        for i in 0..n
            invariant
                n == unprocessed_files.len(),
                unprocessed_files.deep_view() == files0,
                self@ == inst0,
                dirv == input_dir_path@,
                ({
                    let rest = claim_pass(
                        inst0,
                        dirv,
                        files0.skip(i as int),
                        claimed_outputs@,
                        output_paths@,
                    );
                    &&& out_full.remaining == remaining.deep_view() + rest.remaining
                    &&& out_full.claimed == claimed.deep_view() + rest.claimed
                    &&& out_full.ids == rest.ids
                    &&& out_full.paths == rest.paths
                }),
        {
            let ghost rem0 = remaining.deep_view();
            let ghost cl0 = claimed.deep_view();
            let ghost idsc = claimed_outputs@;
            let file: String = unprocessed_files[i].clone();
            proof {
                assert(files0.skip(i as int)[0] == files0[i as int]);
                assert(files0.skip(i as int).drop_first() =~= files0.skip(i as int + 1));
                assert(file@ == files0[i as int]);
            }
            let ghost input = InputIdView { dir_path: dirv, file_path: file@ };
            let mut took: bool = false;
            if self.filter.is_acceptable(file.as_str()) {
                let input_id = InputId { dir_path: input_dir_path, file_path: file.as_str() };
                proof {
                    assert(input_id@.dir_path == dirv);
                    assert(input_id@.file_path == file@);
                    assert(input_id@ == input);
                }
                if self.transformer.can_handle(&input_id) {
                    let output_id = self.transformer.determine_output_id(&input_id);
                    if !claimed_outputs.contains(&output_id.0) {
                        let output_path = self.transformer.determine_output_path(&input_id);
                        proof {
                            assert(instance_claims_file(inst0, dirv, file@, idsc));
                            assert(output_id.0@ == kind_output_id(inst0.transformer, input));
                            assert(output_path@ == kind_output_path(inst0.transformer, input));
                        }
                        claimed_outputs.insert(output_id.0);
                        output_paths.insert(output_path);
                        took = true;
                    }
                }
            }
            if took {
                claimed.push(file);
                proof {
                    assert(claimed.deep_view() =~= cl0.push(files0[i as int]));
                    assert(cl0 + (seq![files0[i as int]] + claim_pass(
                        inst0,
                        dirv,
                        files0.skip(i as int + 1),
                        claimed_outputs@,
                        output_paths@,
                    ).claimed) =~= claimed.deep_view() + claim_pass(
                        inst0,
                        dirv,
                        files0.skip(i as int + 1),
                        claimed_outputs@,
                        output_paths@,
                    ).claimed);
                }
            } else {
                proof {
                    assert(!instance_claims_file(inst0, dirv, file@, idsc));
                }
                remaining.push(file);
                proof {
                    assert(remaining.deep_view() =~= rem0.push(files0[i as int]));
                    assert(rem0 + (seq![files0[i as int]] + claim_pass(
                        inst0,
                        dirv,
                        files0.skip(i as int + 1),
                        claimed_outputs@,
                        output_paths@,
                    ).remaining) =~= remaining.deep_view() + claim_pass(
                        inst0,
                        dirv,
                        files0.skip(i as int + 1),
                        claimed_outputs@,
                        output_paths@,
                    ).remaining);
                }
            }
        }
        proof {
            assert(files0.skip(n as int) =~= Seq::<Seq<char>>::empty());
            assert(out_full.remaining =~= remaining.deep_view());
            assert(out_full.claimed =~= claimed.deep_view());
        }
        let count: u64 = claimed.len() as u64;
        *unprocessed_files = remaining;

        if claimed.len() > 0 {
            let ghost claimed_v = claimed.deep_view();
            let dir_string: String = input_dir_path.to_owned();
            let qn: usize = self.input_queues.len();
            let mut found: Option<usize> = None;
            let mut j: usize = 0;
            while j < qn
                invariant_except_break
                    j <= qn,
                    qn == self.input_queues.len(),
                    self@ == inst0,
                    dir_string@ == dirv,
                    found is None,
                    forall|k: int| 0 <= k < j ==> inst0.input_queues[k].dir_path != dirv,
                ensures
                    self@ == inst0,
                    dir_string@ == dirv,
                    match found {
                        Option::None => forall|k: int|
                            0 <= k < inst0.input_queues.len()
                                ==> inst0.input_queues[k].dir_path != dirv,
                        Option::Some(jj) => jj < inst0.input_queues.len()
                            && inst0.input_queues[jj as int].dir_path == dirv && forall|k: int|
                            0 <= k < jj ==> inst0.input_queues[k].dir_path != dirv,
                    },
                decreases qn - j,
            {
                if self.input_queues[j].dir_path.eq(&dir_string) {
                    found = Some(j);
                    break;
                }
                j = j + 1;
            }
            match found {
                Some(jj) => {
                    proof {
                        lemma_queue_dir_index_found(inst0.input_queues, dirv, jj as int);
                    }
                    let mut q = self.input_queues.remove(jj);
                    let ghost qv0 = q@;
                    q.files.append(&mut claimed);
                    proof {
                        assert(q@.files =~= qv0.files + claimed_v);
                    }
                    self.input_queues.insert(jj, q);
                    proof {
                        assert(self@.input_queues =~= queues_after_claim(
                            inst0.input_queues,
                            dirv,
                            claimed_v,
                        ));
                        assert(self@ =~= instance_after_claim(inst0, dirv, claimed_v));
                    }
                },
                None => {
                    proof {
                        lemma_queue_dir_index_none(inst0.input_queues, dirv);
                    }
                    self.input_queues.push(InputQueue { dir_path: dir_string, files: claimed });
                    proof {
                        assert(self@.input_queues =~= queues_after_claim(
                            inst0.input_queues,
                            dirv,
                            claimed_v,
                        ));
                        assert(self@ =~= instance_after_claim(inst0, dirv, claimed_v));
                    }
                },
            }
        } else {
            proof {
                assert(self@ =~= instance_after_claim(inst0, dirv, claimed.deep_view()));
            }
        }
        count
    }

    /// Drains all input queues and returns the pending transformations in
    /// queue order: for every queued file, the absolute input path under
    /// its source directory and the absolute output path under
    /// `output_dir`.
    pub fn take_queued_work(&mut self, output_dir: &str) -> (r: Vec<WorkItem>)
        ensures
            r.deep_view() == spec_work_items(
                old(self)@.transformer,
                old(self)@.input_queues,
                output_dir@,
            ),
            final(self)@ == (TransformerInstanceView {
                input_queues: Seq::<InputQueueView>::empty(),
                ..old(self)@
            }),
    {
        let ghost inst0 = self@;
        let ghost odv = output_dir@;
        let ghost all = spec_work_items(inst0.transformer, inst0.input_queues, odv);
        let mut items: Vec<WorkItem> = Vec::new();
        proof {
            assert(items.deep_view() + all =~= all);
        }
        while self.input_queues.len() > 0
            invariant
                odv == output_dir@,
                self@.priority == inst0.priority,
                self@.overwrite_behavior == inst0.overwrite_behavior,
                self@.name == inst0.name,
                self@.filter == inst0.filter,
                self@.transformer == inst0.transformer,
                all == items.deep_view() + spec_work_items(
                    inst0.transformer,
                    self@.input_queues,
                    odv,
                ),
            decreases self.input_queues.len(),
        {
            let ghost qs = self@.input_queues;
            let q = self.input_queues.remove(0);
            proof {
                assert(self@.input_queues =~= qs.drop_first());
            }
            let ghost qv = q@;
            let ghost target = queue_work_items(inst0.transformer, qv, odv);
            let ghost base = items.deep_view();
            let m: usize = q.files.len();
            proof {
                assert(items.deep_view() =~= base + target.take(0));
            }
            for fi in 0..m
                invariant
                    odv == output_dir@,
                    m == q.files.len(),
                    q@ == qv,
                    self@.transformer == inst0.transformer,
                    target == queue_work_items(inst0.transformer, qv, odv),
                    items.deep_view() == base + target.take(fi as int),
            {
                let ghost items0 = items.deep_view();
                let file: &String = &q.files[fi];
                let input_path: String = join(q.dir_path.as_str(), file.as_str());
                let input_id = InputId {
                    dir_path: q.dir_path.as_str(),
                    file_path: file.as_str(),
                };
                let rel: String = self.transformer.determine_output_path(&input_id);
                let output_path: String = join(output_dir, rel.as_str());
                let item = WorkItem { input_path, output_path };
                proof {
                    assert(qv.files[fi as int] == file@);
                    assert(target[fi as int] == (WorkItemView {
                        input_path: spec_join(qv.dir_path, file@),
                        output_path: spec_join(
                            odv,
                            kind_output_path(
                                inst0.transformer,
                                InputIdView { dir_path: qv.dir_path, file_path: file@ },
                            ),
                        ),
                    }));
                    assert(item@ == target[fi as int]);
                }
                items.push(item);
                proof {
                    assert(items.deep_view() =~= items0.push(target[fi as int]));
                    assert(target.take(fi as int + 1) =~= target.take(fi as int).push(
                        target[fi as int],
                    ));
                    assert(items.deep_view() =~= base + target.take(fi as int + 1));
                }
            }
            proof {
                assert(target.take(m as int) =~= target);
                assert(items.deep_view() =~= base + target);
                assert(spec_work_items(inst0.transformer, qs, odv) == target + spec_work_items(
                    inst0.transformer,
                    qs.drop_first(),
                    odv,
                ));
                assert(items.deep_view() + spec_work_items(
                    inst0.transformer,
                    self@.input_queues,
                    odv,
                ) =~= base + spec_work_items(inst0.transformer, qs, odv));
            }
        }
        proof {
            assert(spec_work_items(inst0.transformer, self@.input_queues, odv)
                =~= Seq::<WorkItemView>::empty());
            assert(items.deep_view() =~= all);
            assert(self@.input_queues =~= Seq::<InputQueueView>::empty());
            assert(self@ =~= (TransformerInstanceView {
                input_queues: Seq::<InputQueueView>::empty(),
                ..inst0
            }));
        }
        items
    }
}

} // verus!
