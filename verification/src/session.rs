//! One run on a located target: read the image, patch it in memory, back the
//! target up, and only then replace it. The session touches no
//! file itself: it says what to do and decides on each reply what comes
//! next.

use crate::patch::{apply, outcome, rule_views, PatchError, PatchSet, RuleView};
use vstd::prelude::*;
use vstd::string::*;

verus! {

/// What the session asks of the file store.
#[derive(Debug, PartialEq, Eq)]
pub enum Request {
    /// Read the whole file at `path`.
    ReadImage { path: String },
    /// Copy the file at `from`, as it is, to `to`.
    Backup { from: String, to: String },
    /// Put `bytes` in the place of the file at `path`, all of them or none.
    Replace { path: String, bytes: Vec<u8> },
    /// Nothing more: the run has ended with this result.
    Finish(Result<(), PatchError>),
}

/// The model of a request.
pub enum RequestView {
    ReadImage { path: Seq<char> },
    Backup { from: Seq<char>, to: Seq<char> },
    Replace { path: Seq<char>, bytes: Seq<u8> },
    Finish(Result<(), PatchError>),
}

impl View for Request {
    type V = RequestView;

    open spec fn view(&self) -> RequestView {
        match self {
            Request::ReadImage { path } => RequestView::ReadImage { path: path@ },
            Request::Backup { from, to } => RequestView::Backup { from: from@, to: to@ },
            Request::Replace { path, bytes } => RequestView::Replace { path: path@, bytes: bytes@ },
            Request::Finish(result) => RequestView::Finish(*result),
        }
    }
}

/// What the file store replies.
#[derive(Debug, PartialEq, Eq)]
pub enum Reply {
    /// The bytes that were read, or `None` where the file could not be read.
    Image(Option<Vec<u8>>),
    /// Whether the copy or the replacement succeeded.
    Done(bool),
}

/// The model of a reply.
pub enum ReplyView {
    Image(Option<Seq<u8>>),
    Done(bool),
}

impl View for Reply {
    type V = ReplyView;

    open spec fn view(&self) -> ReplyView {
        match self {
            Reply::Image(Some(bytes)) => ReplyView::Image(Some(bytes@)),
            Reply::Image(None) => ReplyView::Image(None),
            Reply::Done(done) => ReplyView::Done(*done),
        }
    }
}

/// Where the session stands: which reply it waits for.
pub enum SessionView {
    /// It waits for the image of the target.
    Reading { target: Seq<char> },
    /// It waits to hear whether the backup was made.
    BackingUp { target: Seq<char>, patched: Seq<u8> },
    /// It waits to hear whether the target was replaced.
    Replacing,
    /// The run has ended.
    Finished { result: Result<(), PatchError> },
}

/// What is put behind the target's path to name its backup.
pub open spec fn backup_suffix() -> Seq<char> {
    ".bak"@
}

/// The state in which the run has ended, and its last request.
pub open spec fn finished(result: Result<(), PatchError>) -> (SessionView, RequestView) {
    (SessionView::Finished { result }, RequestView::Finish(result))
}

/// The start of a run: with a located target the image is read; without one
/// the run has ended.
pub open spec fn opening(located: Option<Seq<char>>) -> (SessionView, RequestView) {
    match located {
        Some(target) => (SessionView::Reading { target }, RequestView::ReadImage { path: target }),
        None => finished(Err(PatchError::NotFound)),
    }
}

/// The session's decision: from the state it is in and the reply to what it
/// asked, the state it goes to and what it asks next.
pub open spec fn session_transition(state: SessionView, reply: ReplyView, rules: Seq<RuleView>) -> (
    SessionView,
    RequestView,
) {
    match state {
        SessionView::Reading { target } => match reply {
            ReplyView::Image(Some(image)) => match outcome(image, rules) {
                Ok(patched) => (
                    SessionView::BackingUp { target, patched },
                    RequestView::Backup { from: target, to: target + backup_suffix() },
                ),
                Err(e) => finished(Err(e)),
            },
            _ => finished(Err(PatchError::NotFound)),
        },
        SessionView::BackingUp { target, patched } => if reply == ReplyView::Done(true) {
            (SessionView::Replacing, RequestView::Replace { path: target, bytes: patched })
        } else {
            finished(Err(PatchError::BackupFailed))
        },
        SessionView::Replacing => if reply == ReplyView::Done(true) {
            finished(Ok(()))
        } else {
            finished(Err(PatchError::WriteFailed))
        },
        SessionView::Finished { result } => finished(result),
    }
}

/// Where patching fails, the run ends with that failure: no backup is asked
/// for and the target is not replaced.
pub proof fn lemma_failed_patch_writes_nothing(
    target: Seq<char>,
    image: Seq<u8>,
    rules: Seq<RuleView>,
)
    requires
        outcome(image, rules) is Err,
    ensures
        session_transition(
            SessionView::Reading { target },
            ReplyView::Image(Some(image)),
            rules,
        ) == finished(Err(outcome(image, rules)->Err_0)),
{
}

/// A backup is asked for only of the target as it was read, under the
/// target's path with the backup suffix, and only where patching succeeded.
pub proof fn lemma_backup_is_of_the_target(
    state: SessionView,
    reply: ReplyView,
    rules: Seq<RuleView>,
)
    requires
        session_transition(state, reply, rules).1 is Backup,
    ensures
        state is Reading,
        reply is Image,
        reply->Image_0 is Some,
        outcome(reply->Image_0->0, rules) is Ok,
        session_transition(state, reply, rules).1 == (RequestView::Backup {
            from: state->Reading_target,
            to: state->Reading_target + backup_suffix(),
        }),
        session_transition(state, reply, rules).0 == (SessionView::BackingUp {
            target: state->Reading_target,
            patched: outcome(reply->Image_0->0, rules)->Ok_0,
        }),
{
}

/// The target is replaced only after its backup succeeded, and only by the
/// patched image: where the backup fails the target stays as it was found.
pub proof fn lemma_replace_follows_backup(
    state: SessionView,
    reply: ReplyView,
    rules: Seq<RuleView>,
)
    requires
        session_transition(state, reply, rules).1 is Replace,
    ensures
        state is BackingUp,
        reply == ReplyView::Done(true),
        session_transition(state, reply, rules).1 == (RequestView::Replace {
            path: state->BackingUp_target,
            bytes: state->BackingUp_patched,
        }),
{
}

/// A run that has ended stays ended and repeats its result.
pub proof fn lemma_finished_session_stays(
    result: Result<(), PatchError>,
    reply: ReplyView,
    rules: Seq<RuleView>,
)
    ensures
        session_transition(SessionView::Finished { result }, reply, rules) == finished(result),
{
}

/// A file store in the ideal: it holds the bytes of each file under the
/// file's path, serves a request when the operation `works`, and is left as
/// it was by an operation that fails.
pub open spec fn served(store: Map<Seq<char>, Seq<u8>>, request: RequestView, works: bool) -> (
    Map<Seq<char>, Seq<u8>>,
    ReplyView,
) {
    match request {
        RequestView::ReadImage { path } => if works && store.dom().contains(path) {
            (store, ReplyView::Image(Some(store[path])))
        } else {
            (store, ReplyView::Image(None))
        },
        RequestView::Backup { from, to } => if works && store.dom().contains(from) {
            (store.insert(to, store[from]), ReplyView::Done(true))
        } else {
            (store, ReplyView::Done(false))
        },
        RequestView::Replace { path, bytes } => if works {
            (store.insert(path, bytes), ReplyView::Done(true))
        } else {
            (store, ReplyView::Done(false))
        },
        RequestView::Finish(_) => (store, ReplyView::Done(false)),
    }
}

/// A whole run on `target` against such a store: the session's three
/// requests, each served in turn, where `reads`, `copies` and `replaces` say
/// which of the three operations work. The result is the store after the
/// run and the session's last request.
pub open spec fn run(
    store: Map<Seq<char>, Seq<u8>>,
    target: Seq<char>,
    rules: Seq<RuleView>,
    reads: bool,
    copies: bool,
    replaces: bool,
) -> (Map<Seq<char>, Seq<u8>>, RequestView) {
    let begun = opening(Some(target));
    let read = served(store, begun.1, reads);
    let judged = session_transition(begun.0, read.1, rules);
    let copied = served(read.0, judged.1, copies);
    let backed = session_transition(judged.0, copied.1, rules);
    let replaced = served(copied.0, backed.1, replaces);
    let ended = session_transition(backed.0, replaced.1, rules);
    (replaced.0, ended.1)
}

/// What a whole run leaves behind. It succeeds exactly when the target can
/// be read, patching succeeds, and the backup and the replacement work; the
/// store then holds the patched image under the target's path and the image
/// as it was found under the backup's. Where only the replacement fails, the
/// target is as it was found and the backup holds the same bytes. In every
/// other case the run ends with the first failure and the store is left
/// exactly as it was: no backup is made and the target is not touched.
pub proof fn lemma_run_is_safe_and_durable(
    store: Map<Seq<char>, Seq<u8>>,
    target: Seq<char>,
    rules: Seq<RuleView>,
    reads: bool,
    copies: bool,
    replaces: bool,
)
    requires
        store.dom().contains(target),
    ensures
        ({
            let image = store[target];
            let backup = target + backup_suffix();
            let (end, last) = run(store, target, rules, reads, copies, replaces);
            &&& backup != target
            &&& last is Finish
            &&& !reads ==> last == RequestView::Finish(Err(PatchError::NotFound)) && end == store
            &&& reads && outcome(image, rules) is Err ==> last == RequestView::Finish(
                Err(outcome(image, rules)->Err_0),
            ) && end == store
            &&& reads && outcome(image, rules) is Ok && !copies ==> last == RequestView::Finish(
                Err(PatchError::BackupFailed),
            ) && end == store
            &&& reads && outcome(image, rules) is Ok && copies && !replaces ==> last
                == RequestView::Finish(Err(PatchError::WriteFailed)) && end == store.insert(
                backup,
                image,
            ) && end[target] == image && end[backup] == image
            &&& reads && outcome(image, rules) is Ok && copies && replaces ==> last
                == RequestView::Finish(Ok(())) && end == store.insert(backup, image).insert(
                target,
                outcome(image, rules)->Ok_0,
            ) && end[target] == outcome(image, rules)->Ok_0 && end[backup] == image
        }),
{
    reveal_strlit(".bak");
    let backup = target + backup_suffix();
    assert(backup.len() == target.len() + 4);
}

#[derive(Debug)]
enum Stage {
    Reading { target: String },
    BackingUp { target: String, patched: Vec<u8> },
    Replacing,
    Finished { result: Result<(), PatchError> },
}

/// A run between two requests.
#[derive(Debug)]
pub struct Session {
    stage: Stage,
}

impl View for Session {
    type V = SessionView;

    closed spec fn view(&self) -> SessionView {
        match self.stage {
            Stage::Reading { target } => SessionView::Reading { target: target@ },
            Stage::BackingUp { target, patched } => SessionView::BackingUp {
                target: target@,
                patched: patched@,
            },
            Stage::Replacing => SessionView::Replacing,
            Stage::Finished { result } => SessionView::Finished { result },
        }
    }
}

/// The run ends.
fn finish(result: Result<(), PatchError>) -> (r: (Session, Request))
    ensures
        (r.0@, r.1@) == finished(result),
{
    (Session { stage: Stage::Finished { result } }, Request::Finish(result))
}

impl Session {
    /// Starts a run on the located target, or ends it at once where no
    /// target was found.
    pub fn start(located: Option<String>) -> (r: (Session, Request))
        ensures
            (r.0@, r.1@) == opening(
                match located {
                    Some(target) => Some(target@),
                    None => None,
                },
            ),
    {
        match located {
            Some(target) => {
                let path = target.clone();
                (Session { stage: Stage::Reading { target } }, Request::ReadImage { path })
            },
            None => finish(Err(PatchError::NotFound)),
        }
    }

    /// Takes the reply to the last request and decides what comes next.
    /// The image is patched with `rules` when it arrives.
    pub fn advance(self, reply: Reply, rules: &PatchSet) -> (r: (Session, Request))
        ensures
            (r.0@, r.1@) == session_transition(self@, reply@, rule_views(rules@)),
    {
        match self.stage {
            Stage::Reading { target } => {
                match reply {
                    Reply::Image(Some(image)) => {
                        match apply(image.as_slice(), rules) {
                            Ok(patched) => {
                                let from = target.clone();
                                let mut to = target.clone();
                                to.append(".bak");
                                (
                                    Session { stage: Stage::BackingUp { target, patched } },
                                    Request::Backup { from, to },
                                )
                            },
                            Err(e) => finish(Err(e)),
                        }
                    },
                    _ => finish(Err(PatchError::NotFound)),
                }
            },
            Stage::BackingUp { target, patched } => {
                match reply {
                    Reply::Done(true) => (
                        Session { stage: Stage::Replacing },
                        Request::Replace { path: target, bytes: patched },
                    ),
                    _ => finish(Err(PatchError::BackupFailed)),
                }
            },
            Stage::Replacing => {
                match reply {
                    Reply::Done(true) => finish(Ok(())),
                    _ => finish(Err(PatchError::WriteFailed)),
                }
            },
            Stage::Finished { result } => finish(result),
        }
    }
}

} // verus!
