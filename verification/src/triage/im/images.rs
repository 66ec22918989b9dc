//! Fetching the images of a message: one after the other, and one that cannot be had costs
//! nothing but itself.
use vstd::prelude::*;
use crate::paths;
use crate::text;
use crate::triage::im::lark;
use crate::triage::im::lark::Fetched;
use crate::triage::im::types;
use crate::triage::im::types::ImAttachment;

verus! {

/// Where the fetching of an image stands.
#[derive(Clone, Copy, Debug, PartialEq, Eq, Structural)]
pub enum ImagePhase {
    /// It is looked for among the files that were staged before.
    Look,
    /// It is fetched.
    Fetch,
    /// The file that was fetched is looked at.
    Inspect,
    /// The file is removed or renamed.
    Tidy,
    Done,
}

/// An image on disk: its path, its length and its first bytes.
pub struct StagedImage {
    pub path: String,
    pub bytes: u64,
    pub head: Vec<u8>,
}

/// What the host reports back.
pub enum ImageInput {
    /// The image among the files that were staged before, where it is there.
    Staged(Option<StagedImage>),
    /// Whether the image could be fetched.
    Fetched(bool),
    /// Length and first bytes of the file that was fetched, where it is there.
    Inspected(Option<(u64, Vec<u8>)>),
    /// A step that counts as done whatever came of it.
    Tried,
}

/// What the host does next.
pub enum ImageWork {
    Look { stem: String },
    Fetch { message_id: String, key: String, staging: String, name: String },
    Inspect { path: String },
    Remove { path: String },
    Rename { from: String, to: String },
    /// The images that could be had, in their order.
    Finish(Vec<ImAttachment>),
}

/// What the host reports back.
pub enum InputView {
    Staged(Option<(Seq<char>, u64, Seq<u8>)>),
    Fetched(bool),
    Inspected(Option<(u64, Seq<u8>)>),
    Tried,
}

/// What the host does next.
pub enum WorkView {
    Look { stem: Seq<char> },
    Fetch { message_id: Seq<char>, key: Seq<char>, staging: Seq<char>, name: Seq<char> },
    Inspect { path: Seq<char> },
    Remove { path: Seq<char> },
    Rename { from: Seq<char>, to: Seq<char> },
    Finish(Seq<types::AttachmentView>),
}

impl View for ImageInput {
    type V = InputView;

    open spec fn view(&self) -> InputView {
        match self {
            ImageInput::Staged(Some(s)) => InputView::Staged(Some((s.path@, s.bytes, s.head@))),
            ImageInput::Staged(None) => InputView::Staged(None),
            ImageInput::Fetched(ok) => InputView::Fetched(*ok),
            ImageInput::Inspected(Some((bytes, head))) => InputView::Inspected(
                Some((*bytes, head@)),
            ),
            ImageInput::Inspected(None) => InputView::Inspected(None),
            ImageInput::Tried => InputView::Tried,
        }
    }
}

impl View for ImageWork {
    type V = WorkView;

    open spec fn view(&self) -> WorkView {
        match self {
            ImageWork::Look { stem } => WorkView::Look { stem: stem@ },
            ImageWork::Fetch { message_id, key, staging, name } => WorkView::Fetch {
                message_id: message_id@,
                key: key@,
                staging: staging@,
                name: name@,
            },
            ImageWork::Inspect { path } => WorkView::Inspect { path: path@ },
            ImageWork::Remove { path } => WorkView::Remove { path: path@ },
            ImageWork::Rename { from, to } => WorkView::Rename { from: from@, to: to@ },
            ImageWork::Finish(kept) => WorkView::Finish(types::attachment_views(kept@)),
        }
    }
}

/// The images of a message, and where their fetching stands.
#[verifier::ext_equal]
pub struct RunView {
    pub message_id: Seq<char>,
    pub staging: Seq<char>,
    pub wanted: Seq<types::AttachmentView>,
    /// The image whose turn it is.
    pub at: int,
    pub kept: Seq<types::AttachmentView>,
    pub phase: ImagePhase,
}

impl RunView {
    /// Whenever it is an image's turn, that image has a key.
    pub open spec fn wf(self) -> bool {
        &&& 0 <= self.at <= self.wanted.len()
        &&& self.phase != ImagePhase::Done ==> self.at < self.wanted.len()
            && self.wanted[self.at].alt is Some
    }

    /// The image whose turn it is.
    pub open spec fn image(self) -> types::AttachmentView {
        self.wanted[self.at]
    }

    /// The key that the image is fetched by.
    pub open spec fn key(self) -> Seq<char> {
        self.image().alt->0
    }

    /// Where the image is fetched to.
    pub open spec fn raw_path(self) -> Seq<char> {
        paths::path_joined(self.staging, self.image().filename)
    }

    /// On to the first image from the `i`th on that has a key, or to the end.
    pub open spec fn turned(self, i: int) -> (RunView, WorkView)
        decreases self.wanted.len() - i,
    {
        if i >= self.wanted.len() {
            (
                RunView { at: self.wanted.len() as int, phase: ImagePhase::Done, ..self },
                WorkView::Finish(self.kept),
            )
        } else {
            match self.wanted[i].alt {
                Some(key) => (
                    RunView { at: i, phase: ImagePhase::Look, ..self },
                    WorkView::Look { stem: lark::image_stem(key) },
                ),
                None => self.turned(i + 1),
            }
        }
    }

    /// The image is left out.
    pub open spec fn without_image(self) -> (RunView, WorkView) {
        self.turned(self.at + 1)
    }

    /// The image is kept, as it lies on disk.
    pub open spec fn with_image(self, a: types::AttachmentView) -> RunView {
        RunView { kept: self.kept.push(a), ..self }
    }

    /// What the host may report in a phase.
    pub open spec fn accepts(self, input: InputView) -> bool {
        match self.phase {
            ImagePhase::Look => input is Staged,
            ImagePhase::Fetch => input is Fetched,
            ImagePhase::Inspect => input is Inspected,
            ImagePhase::Tidy => input is Tried,
            ImagePhase::Done => false,
        }
    }

    /// How the fetching goes on. An image that was staged before is not fetched again. One
    /// that cannot be fetched, is not there or is empty is left out.
    pub open spec fn next(self, input: InputView) -> (RunView, WorkView) {
        match (self.phase, input) {
            (ImagePhase::Look, InputView::Staged(Some(s))) => self.with_image(
                lark::staged_of(self.image(), s.0, s.1, s.2),
            ).without_image(),
            (ImagePhase::Look, InputView::Staged(None)) => (
                RunView { phase: ImagePhase::Fetch, ..self },
                WorkView::Fetch {
                    message_id: self.message_id,
                    key: self.key(),
                    staging: self.staging,
                    name: self.image().filename,
                },
            ),
            (ImagePhase::Fetch, InputView::Fetched(true)) => (
                RunView { phase: ImagePhase::Inspect, ..self },
                WorkView::Inspect { path: self.raw_path() },
            ),
            (ImagePhase::Inspect, InputView::Inspected(Some((bytes, head)))) => if bytes == 0 {
                (
                    RunView { phase: ImagePhase::Tidy, ..self },
                    WorkView::Remove { path: self.raw_path() },
                )
            } else {
                let a = lark::fetched_of(self.image(), self.key(), self.staging, bytes, head);
                if a.local_path == self.raw_path() {
                    self.with_image(a).without_image()
                } else {
                    (
                        RunView { phase: ImagePhase::Tidy, ..self.with_image(a) },
                        WorkView::Rename { from: self.raw_path(), to: a.local_path },
                    )
                }
            },
            _ => self.without_image(),
        }
    }

    /// An upper bound on the steps still to come.
    pub open spec fn steps_left(self) -> int {
        5 * (self.wanted.len() - self.at) + match self.phase {
            ImagePhase::Look => 4int,
            ImagePhase::Fetch => 3,
            ImagePhase::Inspect => 2,
            ImagePhase::Tidy => 1,
            ImagePhase::Done => 0,
        }
    }
}

/// How the fetching of a message's images begins.
pub open spec fn begun(
    message_id: Seq<char>,
    staging: Seq<char>,
    wanted: Seq<types::AttachmentView>,
) -> (RunView, WorkView) {
    RunView {
        message_id,
        staging,
        wanted,
        at: 0,
        kept: seq![],
        phase: ImagePhase::Done,
    }.turned(0)
}

proof fn lemma_turned(run: RunView, i: int)
    requires
        0 <= i,
    ensures
        ({
            let (after, work) = run.turned(i);
            &&& after.wf() && after.kept == run.kept && after.wanted == run.wanted
            &&& after.message_id == run.message_id && after.staging == run.staging
            &&& i <= run.wanted.len() ==> i <= after.at
            &&& after.phase == ImagePhase::Look || after.phase == ImagePhase::Done
            &&& after.phase == ImagePhase::Done ==> after.at == run.wanted.len()
            &&& after.phase == ImagePhase::Done <==> work is Finish
            &&& work matches WorkView::Finish(kept) ==> kept == run.kept
        }),
    decreases run.wanted.len() - i,
{
    if i < run.wanted.len() && run.wanted[i].alt is None {
        lemma_turned(run, i + 1);
    }
}

/// The images of a message, and where their fetching stands.
pub struct ImageRun {
    pub message_id: String,
    pub staging: String,
    pub wanted: Vec<ImAttachment>,
    pub at: usize,
    pub kept: Vec<ImAttachment>,
    pub phase: ImagePhase,
}

impl View for ImageRun {
    type V = RunView;

    open spec fn view(&self) -> RunView {
        RunView {
            message_id: self.message_id@,
            staging: self.staging@,
            wanted: types::attachment_views(self.wanted@),
            at: self.at as int,
            kept: types::attachment_views(self.kept@),
            phase: self.phase,
        }
    }
}

/// Begins to fetch the images of a message into the staging directory.
pub fn download_attachments(message_id: String, staging: String, wanted: Vec<ImAttachment>) -> (r: (
    ImageRun,
    ImageWork,
))
    ensures
        (r.0@, r.1@) == begun(message_id@, staging@, types::attachment_views(wanted@)),
        r.0@.wf(),
{
    let mut run = ImageRun {
        message_id,
        staging,
        wanted,
        at: 0,
        kept: Vec::new(),
        phase: ImagePhase::Done,
    };
    proof {
        assert(run@ =~= RunView {
            message_id: message_id@,
            staging: staging@,
            wanted: types::attachment_views(wanted@),
            at: 0,
            kept: seq![],
            phase: ImagePhase::Done,
        });
        lemma_turned(run@, 0);
    }
    let work = run.turn_to(0);
    (run, work)
}

impl ImageRun {
    fn turn_to(&mut self, i: usize) -> (w: ImageWork)
        requires
            i <= old(self)@.wanted.len(),
        ensures
            (final(self)@, w@) == old(self)@.turned(i as int),
    {
        let ghost start = self@;
        let mut j: usize = i;
        while j < self.wanted.len()
            invariant
                j <= self.wanted@.len(),
                self@ == start,
                start == old(self)@,
                start.turned(i as int) == start.turned(j as int),
            decreases self.wanted@.len() - j,
        {
            assert(self@.wanted[j as int] == self.wanted@[j as int]@);
            match &self.wanted[j].alt {
                Some(key) => {
                    let stem = lark::stem_for_key(key.as_str());
                    self.at = j;
                    self.phase = ImagePhase::Look;
                    assert(self@ =~= RunView { at: j as int, phase: ImagePhase::Look, ..start });
                    return ImageWork::Look { stem };
                },
                None => {},
            }
            j += 1;
        }
        self.at = self.wanted.len();
        self.phase = ImagePhase::Done;
        assert(self@ =~= RunView {
            at: start.wanted.len() as int,
            phase: ImagePhase::Done,
            ..start
        });
        ImageWork::Finish(types::copy_attachments(&self.kept))
    }

    fn keep(&mut self, a: ImAttachment)
        ensures
            final(self)@ == old(self)@.with_image(a@),
    {
        let ghost before = types::attachment_views(self.kept@);
        self.kept.push(a);
        assert(types::attachment_views(self.kept@) =~= before.push(a@));
        assert(self@ =~= old(self)@.with_image(a@));
    }

    /// Takes in what the host reports and says what it does next.
    pub fn step(&mut self, input: ImageInput) -> (w: ImageWork)
        requires
            old(self)@.wf(),
            old(self)@.accepts(input@),
        ensures
            (final(self)@, w@) == old(self)@.next(input@),
            final(self)@.wf(),
    {
        let ghost start = self@;
        let at: usize = self.at;
        let count: usize = self.wanted.len();
        assert(at < count);
        let after: usize = at + 1;
        let image = self.wanted[at].clone();
        assert(start.image() == image@);
        proof {
            law_images_end(start, input@);
        }
        let key = match &image.alt {
            Some(k) => k.clone(),
            None => String::new(),
        };
        assert(key@ == start.key());
        match input {
            ImageInput::Staged(Some(s)) => {
                self.keep(
                    lark::staged_attachment(&image, s.path.as_str(), s.bytes, s.head.as_slice()),
                );
                self.turn_to(after)
            },
            ImageInput::Staged(None) => {
                self.phase = ImagePhase::Fetch;
                assert(self@ =~= RunView { phase: ImagePhase::Fetch, ..start });
                ImageWork::Fetch {
                    message_id: self.message_id.clone(),
                    key,
                    staging: self.staging.clone(),
                    name: image.filename,
                }
            },
            ImageInput::Fetched(true) => {
                self.phase = ImagePhase::Inspect;
                assert(self@ =~= RunView { phase: ImagePhase::Inspect, ..start });
                ImageWork::Inspect {
                    path: paths::path_join(self.staging.as_str(), image.filename.as_str()),
                }
            },
            ImageInput::Inspected(Some((bytes, head))) => {
                let fetched = lark::fetched_attachment(
                    &image,
                    key.as_str(),
                    self.staging.as_str(),
                    bytes,
                    head.as_slice(),
                );
                match fetched {
                    Fetched::Remove(path) => {
                        self.phase = ImagePhase::Tidy;
                        assert(self@ =~= RunView { phase: ImagePhase::Tidy, ..start });
                        ImageWork::Remove { path }
                    },
                    Fetched::Keep { attachment, rename_from } => {
                        let to = attachment.local_path.clone();
                        let ghost a = attachment@;
                        self.keep(attachment);
                        match rename_from {
                            Some(from) => {
                                self.phase = ImagePhase::Tidy;
                                assert(self@ =~= RunView {
                                    phase: ImagePhase::Tidy,
                                    ..start.with_image(a)
                                });
                                ImageWork::Rename { from, to }
                            },
                            None => self.turn_to(after),
                        }
                    },
                }
            },
            _ => self.turn_to(after),
        }
    }
}

// ---------------------------------------------------------------------------
// Laws
// ---------------------------------------------------------------------------

/// The fetching comes to an end, whatever the host reports, and it has ended exactly when
/// the host is told to finish, with the images that were kept.
pub proof fn law_images_end(run: RunView, input: InputView)
    requires
        run.wf(),
        run.accepts(input),
    ensures
        run.next(input).0.wf(),
        0 <= run.next(input).0.steps_left() < run.steps_left(),
        run.next(input).0.phase == ImagePhase::Done <==> run.next(input).1 is Finish,
        run.next(input).1 matches WorkView::Finish(kept) ==> kept == run.next(input).0.kept,
{
    lemma_turned(run, run.at + 1);
    match (run.phase, input) {
        (ImagePhase::Look, InputView::Staged(Some(s))) => {
            lemma_turned(run.with_image(lark::staged_of(run.image(), s.0, s.1, s.2)), run.at + 1);
        },
        (ImagePhase::Inspect, InputView::Inspected(Some((bytes, head)))) => {
            lemma_turned(
                run.with_image(
                    lark::fetched_of(run.image(), run.key(), run.staging, bytes, head),
                ),
                run.at + 1,
            );
        },
        _ => {},
    }
}

/// One image more is kept where it was staged before, or was fetched and is not empty. In
/// every other step the images that were kept stay as they are.
pub proof fn law_only_images_on_disk_are_kept(run: RunView, input: InputView)
    requires
        run.wf(),
        run.accepts(input),
    ensures
        run.next(input).0.kept == (match input {
            InputView::Staged(Some((path, bytes, head))) => run.kept.push(
                lark::staged_of(run.image(), path, bytes, head),
            ),
            InputView::Inspected(Some((bytes, head))) => if bytes == 0 {
                run.kept
            } else {
                run.kept.push(
                    lark::fetched_of(run.image(), run.key(), run.staging, bytes, head),
                )
            },
            _ => run.kept,
        }),
{
    lemma_turned(run, run.at + 1);
    match (run.phase, input) {
        (ImagePhase::Look, InputView::Staged(Some(s))) => {
            lemma_turned(run.with_image(lark::staged_of(run.image(), s.0, s.1, s.2)), run.at + 1);
        },
        (ImagePhase::Inspect, InputView::Inspected(Some((bytes, head)))) => {
            lemma_turned(
                run.with_image(
                    lark::fetched_of(run.image(), run.key(), run.staging, bytes, head),
                ),
                run.at + 1,
            );
        },
        _ => {},
    }
}

/// An image is fetched only where it was not staged before, and at most once: the step
/// after the fetching looks at what came of it or goes on to another image.
pub proof fn law_staged_images_are_not_fetched_again(run: RunView, input: InputView)
    requires
        run.wf(),
        run.accepts(input),
        run.next(input).1 is Fetch,
    ensures
        run.phase == ImagePhase::Look,
        input == InputView::Staged(None),
        run.next(input).0.at == run.at,
{
    lemma_turned(run, run.at + 1);
    match (run.phase, input) {
        (ImagePhase::Look, InputView::Staged(Some(s))) => {
            lemma_turned_work(
                run.with_image(lark::staged_of(run.image(), s.0, s.1, s.2)),
                run.at + 1,
            );
        },
        (ImagePhase::Inspect, InputView::Inspected(Some((bytes, head)))) => {
            lemma_turned_work(
                run.with_image(
                    lark::fetched_of(run.image(), run.key(), run.staging, bytes, head),
                ),
                run.at + 1,
            );
        },
        _ => {
            lemma_turned_work(run, run.at + 1);
        },
    }
}

proof fn lemma_turned_work(run: RunView, i: int)
    ensures
        run.turned(i).1 is Look || run.turned(i).1 is Finish,
    decreases run.wanted.len() - i,
{
    if i < run.wanted.len() && run.wanted[i].alt is None {
        lemma_turned_work(run, i + 1);
    }
}

/// An image is fetched by its own key, for its own message, into the staging directory under
/// its own name; it is looked at, removed and renamed where it was fetched to.
pub proof fn law_images_are_fetched_by_their_keys(run: RunView, input: InputView)
    requires
        run.wf(),
        run.accepts(input),
    ensures
        ({
            let raw = paths::path_joined(run.staging, run.wanted[run.at].filename);
            match run.next(input).1 {
                WorkView::Fetch { message_id, key, staging, name } => {
                    &&& message_id == run.message_id
                    &&& run.wanted[run.at].alt == Some(key)
                    &&& staging == run.staging
                    &&& name == run.wanted[run.at].filename
                },
                WorkView::Inspect { path } => path == raw && input == InputView::Fetched(true),
                WorkView::Remove { path } => path == raw && (input matches InputView::Inspected(
                    Some((bytes, _)),
                ) && bytes == 0),
                WorkView::Rename { from, to } => from == raw && to == run.next(
                    input,
                ).0.kept.last().local_path,
                WorkView::Look { stem } => run.next(input).0.wanted[run.next(input).0.at].alt
                    matches Some(key) && stem == lark::image_stem(key) && run.next(input).0.at
                    > run.at && forall|k: int|
                    run.at < k < run.next(input).0.at ==> (#[trigger] run.wanted[k]).alt is None,
                WorkView::Finish(_) => forall|k: int|
                    run.at < k < run.wanted.len() ==> (#[trigger] run.wanted[k]).alt is None,
            }
        }),
{
    lemma_turned_skips(run, run.at + 1);
    match (run.phase, input) {
        (ImagePhase::Look, InputView::Staged(Some(s))) => {
            lemma_turned_skips(
                run.with_image(lark::staged_of(run.image(), s.0, s.1, s.2)),
                run.at + 1,
            );
        },
        (ImagePhase::Inspect, InputView::Inspected(Some((bytes, head)))) => {
            lemma_turned_skips(
                run.with_image(
                    lark::fetched_of(run.image(), run.key(), run.staging, bytes, head),
                ),
                run.at + 1,
            );
        },
        _ => {},
    }
}

proof fn lemma_turned_skips(run: RunView, i: int)
    requires
        0 <= i,
    ensures
        ({
            let (after, work) = run.turned(i);
            &&& after.wanted == run.wanted
            &&& work is Look || work is Finish
            &&& work matches WorkView::Look { stem } ==> i <= after.at < run.wanted.len()
                && run.wanted[after.at].alt is Some && stem == lark::image_stem(
                run.wanted[after.at].alt->0,
            ) && forall|k: int| i <= k < after.at ==> (#[trigger] run.wanted[k]).alt is None
            &&& work is Finish ==> forall|k: int|
                i <= k < run.wanted.len() ==> (#[trigger] run.wanted[k]).alt is None
        }),
    decreases run.wanted.len() - i,
{
    if i < run.wanted.len() && run.wanted[i].alt is None {
        lemma_turned_skips(run, i + 1);
    }
}

/// A file that was fetched is renamed exactly where it is to lie under another name, and is
/// then kept under that name.
pub proof fn law_files_are_renamed_where_they_lie_elsewhere(
    run: RunView,
    bytes: u64,
    head: Seq<u8>,
)
    requires
        run.wf(),
        run.phase == ImagePhase::Inspect,
        bytes > 0,
    ensures
        ({
            let raw = paths::path_joined(run.staging, run.wanted[run.at].filename);
            let a = lark::fetched_of(run.image(), run.key(), run.staging, bytes, head);
            let after = run.next(InputView::Inspected(Some((bytes, head))));
            &&& a.local_path != raw ==> after.1 == WorkView::Rename { from: raw, to: a.local_path }
            &&& a.local_path == raw ==> !(after.1 is Rename)
            &&& after.0.kept == run.kept.push(a)
        }),
{
    let a = lark::fetched_of(run.image(), run.key(), run.staging, bytes, head);
    lemma_turned(run.with_image(a), run.at + 1);
    lemma_turned_work(run.with_image(a), run.at + 1);
}

/// The fetching of a message's images begins with the first of them that has a key, for that
/// message and into that directory; where none has one, nothing is kept.
pub proof fn law_fetching_begins_with_the_first_image(
    message_id: Seq<char>,
    staging: Seq<char>,
    wanted: Seq<types::AttachmentView>,
)
    ensures
        ({
            let (run, work) = begun(message_id, staging, wanted);
            &&& run.message_id == message_id && run.staging == staging && run.wanted == wanted
            &&& run.kept.len() == 0
            &&& match work {
                WorkView::Look { stem } => run.phase == ImagePhase::Look && 0 <= run.at
                    < wanted.len() && (wanted[run.at].alt matches Some(key) && stem
                    == lark::image_stem(key)) && forall|k: int|
                    0 <= k < run.at ==> (#[trigger] wanted[k]).alt is None,
                WorkView::Finish(kept) => run.phase == ImagePhase::Done && kept.len() == 0
                    && forall|k: int| 0 <= k < wanted.len() ==> (#[trigger] wanted[k]).alt is None,
                _ => false,
            }
        }),
{
    let run = RunView {
        message_id,
        staging,
        wanted,
        at: 0,
        kept: seq![],
        phase: ImagePhase::Done,
    };
    lemma_turned(run, 0);
    lemma_turned_skips(run, 0);
}

} // verus!
