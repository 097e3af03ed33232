//! The chain of strategies that finds the target's executable. The locator
//! reads nothing itself: it says what to ask of the registry and the file
//! system, and decides on each answer what to ask next.

use crate::command::{extract_path, extracted_path};
use crate::text::{
    chars_of, has_marker, has_quoted_span, is_quoted_span, lemma_quoted_span_unique,
    mentions_target, quoted_span, quoted_text,
};
use vstd::prelude::*;
use vstd::string::*;

verus! {

/// How many document extensions the second strategy tries.
pub const EXTENSION_COUNT: usize = 5;

/// How many identifiers of installed programs the third strategy probes, each
/// in two forms.
pub const ENTRY_LIMIT: u32 = 10000;

/// How many fields of an installed program's entry the third strategy reads.
pub const FIELD_COUNT: usize = 4;

/// A root of the registry.
#[derive(Debug, Clone, Copy, PartialEq, Eq, Structural)]
pub enum Hive {
    /// The preferences of the current user.
    CurrentUser,
    /// The settings of the machine.
    LocalMachine,
}

/// What the locator asks of its environment.
#[derive(Debug, PartialEq, Eq)]
pub enum Query {
    /// The string value `name` of the key `key` under `hive`.
    ReadValue { hive: Hive, key: String, name: String },
    /// Whether the key `key` under `hive` can be opened.
    KeyExists { hive: Hive, key: String },
    /// Whether `path` names an existing file.
    FileExists { path: String },
}

/// The model of a query.
pub enum QueryView {
    ReadValue { hive: Hive, key: Seq<char>, name: Seq<char> },
    KeyExists { hive: Hive, key: Seq<char> },
    FileExists { path: Seq<char> },
}

impl View for Query {
    type V = QueryView;

    open spec fn view(&self) -> QueryView {
        match self {
            Query::ReadValue { hive, key, name } => QueryView::ReadValue {
                hive: *hive,
                key: key@,
                name: name@,
            },
            Query::KeyExists { hive, key } => QueryView::KeyExists { hive: *hive, key: key@ },
            Query::FileExists { path } => QueryView::FileExists { path: path@ },
        }
    }
}

/// What the environment answers.
#[derive(Debug, PartialEq, Eq)]
pub enum Answer {
    /// The string that was read, or `None` where it could not be read.
    Text(Option<String>),
    /// Whether the key or the file exists.
    Flag(bool),
}

/// The model of an answer.
pub enum AnswerView {
    Text(Option<Seq<char>>),
    Flag(bool),
}

impl View for Answer {
    type V = AnswerView;

    open spec fn view(&self) -> AnswerView {
        match self {
            Answer::Text(Some(text)) => AnswerView::Text(Some(text@)),
            Answer::Text(None) => AnswerView::Text(None),
            Answer::Flag(flag) => AnswerView::Flag(*flag),
        }
    }
}

impl AnswerView {
    /// The string of the answer; an answer of another kind counts as none.
    pub open spec fn text(self) -> Option<Seq<char>> {
        match self {
            AnswerView::Text(text) => text,
            AnswerView::Flag(_) => None,
        }
    }

    /// Whether the answer is yes; an answer of another kind counts as no.
    pub open spec fn yes(self) -> bool {
        self == AnswerView::Flag(true)
    }
}

/// What the locator does next.
#[derive(Debug, PartialEq, Eq)]
pub enum Step {
    /// It asks, and waits for the answer.
    Ask(Query),
    /// It has found the executable at this path.
    Found(String),
    /// Every strategy has declined.
    NotFound,
}

/// The model of a step.
pub enum StepView {
    Ask(QueryView),
    Found(Seq<char>),
    NotFound,
}

impl View for Step {
    type V = StepView;

    open spec fn view(&self) -> StepView {
        match self {
            Step::Ask(query) => StepView::Ask(query@),
            Step::Found(path) => StepView::Found(path@),
            Step::NotFound => StepView::NotFound,
        }
    }
}

/// Where the locator stands: which answer it waits for.
pub enum LocatorView {
    /// First strategy: the open command of the native document type.
    DirectCommand,
    /// First strategy: whether the candidate exists.
    DirectCheck { candidate: Seq<char> },
    /// Second strategy: the class of extension number `ext`.
    AssocClass { ext: int },
    /// Second strategy: the open command of that class.
    AssocCommand { ext: int },
    /// Second strategy: whether the candidate exists.
    AssocCheck { ext: int, candidate: Seq<char> },
    /// Third strategy: whether the list of installed programs can be opened.
    UninstallRoot,
    /// Third strategy: the display name of an entry.
    EntryName { entry: int, braced: bool },
    /// Third strategy: field number `field` of an entry.
    EntryField { entry: int, braced: bool, field: int },
    /// Third strategy: whether the candidate exists.
    EntryCheck { entry: int, braced: bool, field: int, candidate: Seq<char> },
    /// The chain has ended, with the path it found or with none.
    Finished { found: Option<Seq<char>> },
}

/// The key that holds the open command of the native document type.
pub open spec fn direct_key() -> Seq<char> {
    "Software\\Classes\\ResolveBinFile\\shell\\open\\command"@
}

/// The key under which installed programs are listed.
pub open spec fn uninstall_key() -> Seq<char> {
    "SOFTWARE\\Microsoft\\Windows\\CurrentVersion\\Uninstall"@
}

/// The name of the executable, with the separator before it.
pub open spec fn executable_suffix() -> Seq<char> {
    "\\Resolve.exe"@
}

/// The document extensions of the target, in the order in which they are
/// tried.
pub open spec fn extension(ext: int) -> Seq<char> {
    if ext == 0 {
        ".drp"@
    } else if ext == 1 {
        ".drt"@
    } else if ext == 2 {
        ".drb"@
    } else if ext == 3 {
        ".drfx"@
    } else {
        ".braw"@
    }
}

/// The fields of an entry, in the order in which they are read: the install
/// directory, the install location, the uninstall command, the icon.
pub open spec fn field_name(field: int) -> Seq<char> {
    if field == 0 {
        "InstallDir"@
    } else if field == 1 {
        "InstallLocation"@
    } else if field == 2 {
        "UninstallString"@
    } else {
        "DisplayIcon"@
    }
}

/// The key of a document extension.
pub open spec fn class_key(ext: Seq<char>) -> Seq<char> {
    "SOFTWARE\\Classes\\"@ + ext
}

/// The key that holds the open command of a file-type class.
pub open spec fn class_command_key(class: Seq<char>) -> Seq<char> {
    "SOFTWARE\\Classes\\"@ + class + "\\shell\\open\\command"@
}

/// The hexadecimal digit of `d`, in upper case.
pub open spec fn hex_digit(d: int) -> char {
    "0123456789ABCDEF"@[d]
}

/// The last `width` hexadecimal digits of `n`, in upper case.
pub open spec fn hex_digits(n: nat, width: nat) -> Seq<char>
    decreases width,
{
    if width == 0 {
        Seq::empty()
    } else {
        hex_digits(n / 16, (width - 1) as nat).push(hex_digit((n % 16) as int))
    }
}

/// The identifier of entry number `entry`: eight hexadecimal digits and a
/// fixed tail, in braces or bare.
pub open spec fn entry_name(entry: int, braced: bool) -> Seq<char> {
    let bare = hex_digits(entry as nat, 8) + "-0000-0000-0000-000000000000"@;
    if braced {
        "{"@ + bare + "}"@
    } else {
        bare
    }
}

/// The key of entry number `entry`.
pub open spec fn entry_key(entry: int, braced: bool) -> Seq<char> {
    uninstall_key() + "\\"@ + entry_name(entry, braced)
}

impl LocatorView {
    /// The counters of the state are in range.
    pub open spec fn valid(self) -> bool {
        match self {
            LocatorView::AssocClass { ext } => 0 <= ext < EXTENSION_COUNT,
            LocatorView::AssocCommand { ext } => 0 <= ext < EXTENSION_COUNT,
            LocatorView::AssocCheck { ext, .. } => 0 <= ext < EXTENSION_COUNT,
            LocatorView::EntryName { entry, .. } => 0 <= entry < ENTRY_LIMIT,
            LocatorView::EntryField { entry, field, .. } => 0 <= entry < ENTRY_LIMIT && 0 <= field
                < FIELD_COUNT,
            LocatorView::EntryCheck { entry, field, .. } => 0 <= entry < ENTRY_LIMIT && 0 <= field
                < FIELD_COUNT,
            _ => true,
        }
    }

    /// The strategy that the state belongs to: 1, 2 or 3, and 4 once the
    /// chain has ended.
    pub open spec fn strategy(self) -> int {
        match self {
            LocatorView::DirectCommand => 1,
            LocatorView::DirectCheck { .. } => 1,
            LocatorView::AssocClass { .. } => 2,
            LocatorView::AssocCommand { .. } => 2,
            LocatorView::AssocCheck { .. } => 2,
            LocatorView::UninstallRoot => 3,
            LocatorView::EntryName { .. } => 3,
            LocatorView::EntryField { .. } => 3,
            LocatorView::EntryCheck { .. } => 3,
            LocatorView::Finished { .. } => 4,
        }
    }

    /// The candidate whose existence the state waits to hear of.
    pub open spec fn candidate(self) -> Option<Seq<char>> {
        match self {
            LocatorView::DirectCheck { candidate } => Some(candidate),
            LocatorView::AssocCheck { candidate, .. } => Some(candidate),
            LocatorView::EntryCheck { candidate, .. } => Some(candidate),
            _ => None,
        }
    }
}

/// The state in which the chain has ended, and its last step.
pub open spec fn ended(found: Option<Seq<char>>) -> (LocatorView, StepView) {
    (
        LocatorView::Finished { found },
        match found {
            Some(path) => StepView::Found(path),
            None => StepView::NotFound,
        },
    )
}

/// The start of the chain: the first strategy reads the open command.
pub open spec fn initial() -> (LocatorView, StepView) {
    (
        LocatorView::DirectCommand,
        StepView::Ask(
            QueryView::ReadValue { hive: Hive::CurrentUser, key: direct_key(), name: Seq::empty() },
        ),
    )
}

/// The second strategy turns to extension number `ext`; past the last
/// extension the third strategy begins.
pub open spec fn begin_assoc(ext: int) -> (LocatorView, StepView) {
    if ext < EXTENSION_COUNT {
        (
            LocatorView::AssocClass { ext },
            StepView::Ask(
                QueryView::ReadValue {
                    hive: Hive::LocalMachine,
                    key: class_key(extension(ext)),
                    name: Seq::empty(),
                },
            ),
        )
    } else {
        (
            LocatorView::UninstallRoot,
            StepView::Ask(QueryView::KeyExists { hive: Hive::LocalMachine, key: uninstall_key() }),
        )
    }
}

/// The third strategy turns to an entry; past the last entry the chain ends
/// without a path.
pub open spec fn begin_entry(entry: int, braced: bool) -> (LocatorView, StepView) {
    if entry < ENTRY_LIMIT {
        (
            LocatorView::EntryName { entry, braced },
            StepView::Ask(
                QueryView::ReadValue {
                    hive: Hive::LocalMachine,
                    key: entry_key(entry, braced),
                    name: "DisplayName"@,
                },
            ),
        )
    } else {
        ended(None)
    }
}

/// The third strategy leaves an entry: after the braced form of an
/// identifier comes its bare form, then the next identifier.
pub open spec fn after_entry(entry: int, braced: bool) -> (LocatorView, StepView) {
    if braced {
        begin_entry(entry, false)
    } else {
        begin_entry(entry + 1, true)
    }
}

/// The third strategy turns to field number `field` of an entry; past the
/// last field it leaves the entry.
pub open spec fn begin_field(entry: int, braced: bool, field: int) -> (LocatorView, StepView) {
    if field < FIELD_COUNT {
        (
            LocatorView::EntryField { entry, braced, field },
            StepView::Ask(
                QueryView::ReadValue {
                    hive: Hive::LocalMachine,
                    key: entry_key(entry, braced),
                    name: field_name(field),
                },
            ),
        )
    } else {
        after_entry(entry, braced)
    }
}

/// The path of which the containing directory is wanted before the answer
/// can be judged: the quoted path of an uninstall command, or an icon's
/// path.
pub open spec fn parent_subject(state: LocatorView, answer: AnswerView) -> Option<Seq<char>> {
    match (state, answer.text()) {
        (LocatorView::EntryField { field, .. }, Some(value)) => {
            if field == 2 {
                if has_quoted_span(value) {
                    Some(quoted_text(value))
                } else {
                    None
                }
            } else if field == 3 {
                Some(value)
            } else {
                None
            }
        },
        _ => None,
    }
}

/// The third strategy has read a field: the directory that the value stands
/// for, `parent` being the containing directory of `parent_subject`. An
/// install directory or location is the directory itself; an uninstall
/// command gives the directory of its quoted path, an icon the directory it
/// lies in. `None` says that the field gives no directory.
pub open spec fn field_directory(field: int, value: Seq<char>, parent: Option<Seq<char>>) -> Option<
    Seq<char>,
> {
    if field == 2 {
        if has_quoted_span(value) {
            parent
        } else {
            None
        }
    } else if field == 3 {
        parent
    } else {
        Some(value)
    }
}

/// What the platform can give as the containing directory of `subject`: a
/// beginning of it, or none; and none where no directory is asked for.
pub open spec fn possible_parent(subject: Option<Seq<char>>, parent: Option<Seq<char>>) -> bool {
    match (subject, parent) {
        (Some(path), Some(directory)) => directory.is_prefix_of(path),
        (None, Some(_)) => false,
        _ => true,
    }
}

/// The locator's decision: from the state it is in and the answer to what it
/// asked, the state it goes to and what it does next. `parent` is the
/// containing directory of `parent_subject(state, answer)`, and is not looked
/// at where that is `None`.
pub open spec fn transition(state: LocatorView, answer: AnswerView, parent: Option<Seq<char>>) -> (
    LocatorView,
    StepView,
) {
    match state {
        LocatorView::DirectCommand => match answer.text() {
            Some(command) => match extracted_path(command) {
                Some(candidate) => (
                    LocatorView::DirectCheck { candidate },
                    StepView::Ask(QueryView::FileExists { path: candidate }),
                ),
                None => begin_assoc(0),
            },
            None => begin_assoc(0),
        },
        LocatorView::DirectCheck { candidate } => if answer.yes() {
            ended(Some(candidate))
        } else {
            begin_assoc(0)
        },
        LocatorView::AssocClass { ext } => match answer.text() {
            Some(class) => (
                LocatorView::AssocCommand { ext },
                StepView::Ask(
                    QueryView::ReadValue {
                        hive: Hive::LocalMachine,
                        key: class_command_key(class),
                        name: Seq::empty(),
                    },
                ),
            ),
            None => begin_assoc(ext + 1),
        },
        LocatorView::AssocCommand { ext } => match answer.text() {
            Some(command) => match extracted_path(command) {
                Some(candidate) => (
                    LocatorView::AssocCheck { ext, candidate },
                    StepView::Ask(QueryView::FileExists { path: candidate }),
                ),
                None => begin_assoc(ext + 1),
            },
            None => begin_assoc(ext + 1),
        },
        LocatorView::AssocCheck { ext, candidate } => if answer.yes() {
            ended(Some(candidate))
        } else {
            begin_assoc(ext + 1)
        },
        LocatorView::UninstallRoot => if answer.yes() {
            begin_entry(0, true)
        } else {
            ended(None)
        },
        LocatorView::EntryName { entry, braced } => match answer.text() {
            Some(name) => if has_marker(name) {
                begin_field(entry, braced, 0)
            } else {
                after_entry(entry, braced)
            },
            None => after_entry(entry, braced),
        },
        LocatorView::EntryField { entry, braced, field } => match answer.text() {
            Some(value) => match field_directory(field, value, parent) {
                Some(directory) => (
                    LocatorView::EntryCheck {
                        entry,
                        braced,
                        field,
                        candidate: directory + executable_suffix(),
                    },
                    StepView::Ask(
                        QueryView::FileExists { path: directory + executable_suffix() },
                    ),
                ),
                None => begin_field(entry, braced, field + 1),
            },
            None => begin_field(entry, braced, field + 1),
        },
        LocatorView::EntryCheck { entry, braced, field, candidate } => if answer.yes() {
            ended(Some(candidate))
        } else {
            begin_field(entry, braced, field + 1)
        },
        LocatorView::Finished { found } => ended(found),
    }
}

/// A candidate that exists ends the chain at once with that candidate:
/// whatever strategy found it, no later question is asked and no later
/// strategy begins.
pub proof fn lemma_existing_candidate_wins(state: LocatorView, parent: Option<Seq<char>>)
    requires
        state.candidate() is Some,
    ensures
        transition(state, AnswerView::Flag(true), parent) == ended(state.candidate()),
        transition(state, AnswerView::Flag(true), parent).1 == StepView::Found(
            state.candidate()->0,
        ),
{
}

/// The chain asks a question exactly as long as it has not ended, and once
/// ended it stays so and repeats its result.
pub proof fn lemma_questions_until_the_end(
    state: LocatorView,
    answer: AnswerView,
    parent: Option<Seq<char>>,
)
    ensures
        transition(state, answer, parent).1 is Ask <==> !(transition(
            state,
            answer,
            parent,
        ).0 is Finished),
        state is Finished ==> transition(state, answer, parent) == ended(state->found),
{
}

/// The strategies run in their order: the chain starts in the first, and no
/// step leads back to an earlier strategy. Every step keeps the state valid.
pub proof fn lemma_strategies_in_order(
    state: LocatorView,
    answer: AnswerView,
    parent: Option<Seq<char>>,
)
    requires
        state.valid(),
    ensures
        initial().0.strategy() == 1,
        transition(state, answer, parent).0.strategy() >= state.strategy(),
        transition(state, answer, parent).0.valid(),
{
}

/// A strategy is left for a later one only when it has declined: its value
/// could not be read, gave no path, or gave one that does not exist.
pub proof fn lemma_later_strategy_after_decline(
    state: LocatorView,
    answer: AnswerView,
    parent: Option<Seq<char>>,
)
    requires
        state.valid(),
        state.strategy() < 3,
        transition(state, answer, parent).0.strategy() > state.strategy(),
        !(transition(state, answer, parent).0 is Finished),
    ensures
        state.candidate() is Some ==> !answer.yes(),
        state.candidate() is None ==> answer.text() is None || (!(state is AssocClass)
            && extracted_path(answer.text()->0) is None),
{
}

/// A path is reported as found only when the file store has said that it
/// exists, or when the chain ended with it before.
pub proof fn lemma_found_only_when_validated(
    state: LocatorView,
    answer: AnswerView,
    parent: Option<Seq<char>>,
)
    requires
        transition(state, answer, parent).1 is Found,
    ensures
        (state.candidate() == Some(transition(state, answer, parent).1->Found_0)
            && answer.yes()) || state == (LocatorView::Finished {
            found: Some(transition(state, answer, parent).1->Found_0),
        }),
{
}

/// Where the first strategy reads a command that gives a path, and the path
/// exists, the chain ends with that path after two questions: the second and
/// third strategies ask nothing.
pub proof fn lemma_direct_hit_ends_the_chain(
    command: Seq<char>,
    first: Option<Seq<char>>,
    second: Option<Seq<char>>,
)
    requires
        extracted_path(command) is Some,
    ensures
        transition(initial().0, AnswerView::Text(Some(command)), first).1 == StepView::Ask(
            QueryView::FileExists { path: extracted_path(command)->0 },
        ),
        transition(
            transition(initial().0, AnswerView::Text(Some(command)), first).0,
            AnswerView::Flag(true),
            second,
        ) == ended(extracted_path(command)),
{
}

/// Where the second strategy reads, for one of its extensions, a class and
/// then a command that gives a path, and the path exists, the chain ends
/// with that path: the third strategy asks nothing.
pub proof fn lemma_association_hit_ends_the_chain(
    ext: int,
    class: Seq<char>,
    command: Seq<char>,
    parent: Option<Seq<char>>,
)
    requires
        0 <= ext < EXTENSION_COUNT,
        extracted_path(command) is Some,
    ensures
        ({
            let asked_class = begin_assoc(ext);
            let asked_command = transition(asked_class.0, AnswerView::Text(Some(class)), parent);
            let asked_file = transition(asked_command.0, AnswerView::Text(Some(command)), parent);
            let end = transition(asked_file.0, AnswerView::Flag(true), parent);
            &&& asked_command.1 == StepView::Ask(
                QueryView::ReadValue {
                    hive: Hive::LocalMachine,
                    key: class_command_key(class),
                    name: Seq::empty(),
                },
            )
            &&& asked_file.1 == StepView::Ask(
                QueryView::FileExists { path: extracted_path(command)->0 },
            )
            &&& end == ended(extracted_path(command))
        }),
{
}

/// How many identifiers, each form counted, the third strategy has not left
/// behind when it stands at this one.
pub open spec fn forms_left(entry: int, braced: bool) -> int {
    2 * (ENTRY_LIMIT as int - entry) - if braced {
        0int
    } else {
        1int
    }
}

impl LocatorView {
    /// A bound on the questions that the chain can still ask from a state.
    /// An identifier in one form costs at most 9 questions, its name and two
    /// for each field; the third strategy one more, 180001 in all; an
    /// extension 3; the first strategy 2.
    pub open spec fn questions_left(self) -> int {
        match self {
            LocatorView::DirectCommand => 180018,
            LocatorView::DirectCheck { .. } => 180017,
            LocatorView::AssocClass { ext } => 180001 + 3 * (5 - ext),
            LocatorView::AssocCommand { ext } => 180001 + 3 * (5 - ext) - 1,
            LocatorView::AssocCheck { ext, .. } => 180001 + 3 * (5 - ext) - 2,
            LocatorView::UninstallRoot => 180001,
            LocatorView::EntryName { entry, braced } => 9 * forms_left(entry, braced),
            LocatorView::EntryField { entry, braced, field } => 9 * forms_left(entry, braced) - 1
                - 2 * field,
            LocatorView::EntryCheck { entry, braced, field, .. } => 9 * forms_left(entry, braced)
                - 2 - 2 * field,
            LocatorView::Finished { .. } => 0,
        }
    }
}

/// The chain comes to an end: every answer brings it nearer, so that it asks
/// at most `questions_left` questions from any state, and 180018 from its
/// start.
pub proof fn lemma_chain_ends(state: LocatorView, answer: AnswerView, parent: Option<Seq<char>>)
    requires
        state.valid(),
        !(state is Finished),
    ensures
        0 <= transition(state, answer, parent).0.questions_left() < state.questions_left(),
        initial().0.questions_left() == 180018,
{
    match state {
        LocatorView::EntryName { entry, braced } => {
            assert(forms_left(entry, braced) >= 1);
        },
        LocatorView::EntryField { entry, braced, field } => {
            assert(forms_left(entry, braced) >= 1);
        },
        LocatorView::EntryCheck { entry, braced, field, .. } => {
            assert(forms_left(entry, braced) >= 1);
        },
        _ => {},
    }
}

/// What the locator finds itself in: the string values of the registry, the
/// keys that can be opened, the files that exist, and the containing
/// directory of each path that has one.
pub struct Surroundings {
    pub values: Map<(Hive, Seq<char>, Seq<char>), Seq<char>>,
    pub keys: Set<(Hive, Seq<char>)>,
    pub files: Set<Seq<char>>,
    pub parents: Map<Seq<char>, Seq<char>>,
}

impl Surroundings {
    /// The answer to a question.
    pub open spec fn answer(self, query: QueryView) -> AnswerView {
        match query {
            QueryView::ReadValue { hive, key, name } => if self.values.dom().contains(
                (hive, key, name),
            ) {
                AnswerView::Text(Some(self.values[(hive, key, name)]))
            } else {
                AnswerView::Text(None)
            },
            QueryView::KeyExists { hive, key } => AnswerView::Flag(self.keys.contains((hive, key))),
            QueryView::FileExists { path } => AnswerView::Flag(self.files.contains(path)),
        }
    }

    /// The containing directory of a path, where one is asked for.
    pub open spec fn parent(self, subject: Option<Seq<char>>) -> Option<Seq<char>> {
        match subject {
            Some(path) => if self.parents.dom().contains(path) {
                Some(self.parents[path])
            } else {
                None
            },
            None => None,
        }
    }

    /// The step is the one that the state waits on: a state with a candidate
    /// has asked whether that candidate exists, a chain that has ended
    /// reports its result, which exists, and every other state has asked
    /// something.
    pub open spec fn waits_on(self, state: LocatorView, step: StepView) -> bool {
        match state {
            LocatorView::Finished { found } => step == ended(found).1 && (found is Some
                ==> self.files.contains(found->0)),
            _ => match state.candidate() {
                Some(candidate) => step == StepView::Ask(QueryView::FileExists { path: candidate }),
                None => step is Ask,
            },
        }
    }

    /// What the chain comes to in these surroundings when it goes on from
    /// `state` and `step` for at most `fuel` questions: the path it finds or
    /// `None` for no path, inside `Some`; or `None` where the questions run
    /// out first.
    pub open spec fn resolve_from(self, state: LocatorView, step: StepView, fuel: nat) -> Option<
        Option<Seq<char>>,
    >
        decreases fuel,
    {
        match step {
            StepView::Found(path) => Some(Some(path)),
            StepView::NotFound => Some(None),
            StepView::Ask(query) => if fuel == 0 {
                None
            } else {
                let answer = self.answer(query);
                let next = transition(state, answer, self.parent(parent_subject(state, answer)));
                self.resolve_from(next.0, next.1, (fuel - 1) as nat)
            },
        }
    }

    /// What the whole chain comes to in these surroundings.
    pub open spec fn resolve(self) -> Option<Seq<char>> {
        match self.resolve_from(initial().0, initial().1, 180018) {
            Some(found) => found,
            None => None,
        }
    }
}

/// Every step of the chain keeps the state valid and the step the one that
/// the state waits on.
pub proof fn lemma_step_keeps_waiting(
    env: Surroundings,
    state: LocatorView,
    query: QueryView,
    parent: Option<Seq<char>>,
)
    requires
        state.valid(),
        env.waits_on(state, StepView::Ask(query)),
    ensures
        transition(state, env.answer(query), parent).0.valid(),
        env.waits_on(
            transition(state, env.answer(query), parent).0,
            transition(state, env.answer(query), parent).1,
        ),
{
}

/// The chain always comes to an end, within the questions that its state
/// leaves it.
pub proof fn lemma_resolution_ends(env: Surroundings, state: LocatorView, step: StepView, fuel: nat)
    requires
        state.valid(),
        env.waits_on(state, step),
        fuel >= state.questions_left(),
    ensures
        env.resolve_from(state, step, fuel) is Some,
    decreases fuel,
{
    match step {
        StepView::Ask(query) => {
            let answer = env.answer(query);
            let parent = env.parent(parent_subject(state, answer));
            lemma_chain_ends(state, answer, parent);
            lemma_step_keeps_waiting(env, state, query, parent);
            let next = transition(state, answer, parent);
            lemma_resolution_ends(env, next.0, next.1, (fuel - 1) as nat);
        },
        _ => {},
    }
}

/// A path that the chain finds names a file that exists.
pub proof fn lemma_resolved_path_exists(
    env: Surroundings,
    state: LocatorView,
    step: StepView,
    fuel: nat,
)
    requires
        state.valid(),
        env.waits_on(state, step),
    ensures
        match env.resolve_from(state, step, fuel) {
            Some(Some(path)) => env.files.contains(path),
            _ => true,
        },
    decreases fuel,
{
    match step {
        StepView::Ask(query) => {
            if fuel > 0 {
                let answer = env.answer(query);
                let parent = env.parent(parent_subject(state, answer));
                lemma_step_keeps_waiting(env, state, query, parent);
                let next = transition(state, answer, parent);
                lemma_resolved_path_exists(env, next.0, next.1, (fuel - 1) as nat);
            }
        },
        _ => {},
    }
}

/// The whole chain ends, and what it finds exists.
pub proof fn lemma_resolve_is_sound(env: Surroundings)
    ensures
        env.resolve_from(initial().0, initial().1, 180018) is Some,
        env.resolve() is Some ==> env.files.contains(env.resolve()->0),
{
    lemma_resolution_ends(env, initial().0, initial().1, 180018);
    lemma_resolved_path_exists(env, initial().0, initial().1, 180018);
}

impl Surroundings {
    /// The string value `name` of `key`, where there is one.
    pub open spec fn value(self, hive: Hive, key: Seq<char>, name: Seq<char>) -> Option<Seq<char>> {
        self.answer(QueryView::ReadValue { hive, key, name }).text()
    }

    /// The path that a command gives, where it gives one that exists.
    pub open spec fn existing_path(self, command: Option<Seq<char>>) -> Option<Seq<char>> {
        match command {
            Some(text) => match extracted_path(text) {
                Some(path) => if self.files.contains(path) {
                    Some(path)
                } else {
                    None
                },
                None => None,
            },
            None => None,
        }
    }

    /// What the first strategy comes to, taken on its own: the path of the
    /// direct key's command, where the value is there, gives a path, and the
    /// path exists.
    pub open spec fn direct_candidate(self) -> Option<Seq<char>> {
        self.existing_path(self.value(Hive::CurrentUser, direct_key(), Seq::empty()))
    }

    /// What the second strategy comes to for extension number `ext`, taken
    /// on its own: the path of the command of the extension's class, where
    /// both values are there, the command gives a path, and the path exists.
    pub open spec fn association_candidate(self, ext: int) -> Option<Seq<char>> {
        match self.value(Hive::LocalMachine, class_key(extension(ext)), Seq::empty()) {
            Some(class) => self.existing_path(
                self.value(Hive::LocalMachine, class_command_key(class), Seq::empty()),
            ),
            None => None,
        }
    }
}

/// Priority of the first strategy: where it comes to a path, the chain finds
/// that path after two questions, whatever the second and third strategies
/// would have found.
pub proof fn lemma_first_strategy_has_priority(env: Surroundings)
    requires
        env.direct_candidate() is Some,
    ensures
        env.resolve() == env.direct_candidate(),
        env.resolve_from(initial().0, initial().1, 2) == Some(env.direct_candidate()),
{
    reveal_with_fuel(Surroundings::resolve_from, 3);
    lemma_fuel_to_spare(env, initial().0, initial().1, 2, 180018);
}

/// A chain that has come to an end within some questions comes to the same
/// end when it is allowed more.
pub proof fn lemma_fuel_to_spare(
    env: Surroundings,
    state: LocatorView,
    step: StepView,
    fuel: nat,
    more: nat,
)
    requires
        fuel <= more,
        env.resolve_from(state, step, fuel) is Some,
    ensures
        env.resolve_from(state, step, more) == env.resolve_from(state, step, fuel),
    decreases fuel,
{
    match step {
        StepView::Ask(query) => {
            let answer = env.answer(query);
            let next = transition(state, answer, env.parent(parent_subject(state, answer)));
            lemma_fuel_to_spare(env, next.0, next.1, (fuel - 1) as nat, (more - 1) as nat);
        },
        _ => {},
    }
}

/// From extension number `ext` on, the second strategy finds the path of
/// the first extension that comes to one, within three questions for each
/// extension that it tries.
pub proof fn lemma_associations_in_order(env: Surroundings, ext: int, hit: int)
    requires
        0 <= ext <= hit < EXTENSION_COUNT,
        forall|j: int| ext <= j < hit ==> env.association_candidate(j) is None,
        env.association_candidate(hit) is Some,
    ensures
        env.resolve_from(begin_assoc(ext).0, begin_assoc(ext).1, (3 * (hit - ext + 1)) as nat)
            == Some(env.association_candidate(hit)),
    decreases hit - ext,
{
    reveal_with_fuel(Surroundings::resolve_from, 4);
    let fuel = (3 * (hit - ext + 1)) as nat;
    if ext < hit {
        assert(env.association_candidate(ext) is None);
        let rest = (3 * (hit - ext)) as nat;
        let next = begin_assoc(ext + 1);
        lemma_associations_in_order(env, ext + 1, hit);
        lemma_fuel_to_spare(env, next.0, next.1, rest, (fuel - 1) as nat);
        lemma_fuel_to_spare(env, next.0, next.1, rest, (fuel - 2) as nat);
        lemma_fuel_to_spare(env, next.0, next.1, rest, (fuel - 3) as nat);
    }
}

/// Priority of the second strategy over the third: where the first strategy
/// comes to nothing, because its value is missing, gives no path, or gives
/// one that does not exist, the chain finds the path of the first extension
/// that comes to one, whatever the third strategy would have found.
pub proof fn lemma_second_strategy_has_priority(env: Surroundings, hit: int)
    requires
        env.direct_candidate() is None,
        0 <= hit < EXTENSION_COUNT,
        forall|j: int| 0 <= j < hit ==> env.association_candidate(j) is None,
        env.association_candidate(hit) is Some,
    ensures
        env.resolve() == env.association_candidate(hit),
{
    reveal_with_fuel(Surroundings::resolve_from, 3);
    let next = begin_assoc(0);
    let within = (3 * (hit + 1)) as nat;
    lemma_associations_in_order(env, 0, hit);
    lemma_fuel_to_spare(env, next.0, next.1, within, 180017);
    lemma_fuel_to_spare(env, next.0, next.1, within, 180016);
}

/// The fields of an entry are probed in order: a field that is absent,
/// that gives no directory, or whose candidate does not exist is passed
/// over for the next field, and the entry is left only after its last field.
pub proof fn lemma_fields_in_order(
    entry: int,
    braced: bool,
    field: int,
    answer: AnswerView,
    parent: Option<Seq<char>>,
    candidate: Seq<char>,
)
    requires
        0 <= field < FIELD_COUNT,
    ensures
        ({
            let read = transition(LocatorView::EntryField { entry, braced, field }, answer, parent);
            let directory = match answer.text() {
                Some(value) => field_directory(field, value, parent),
                None => None,
            };
            match directory {
                Some(dir) => read == (
                    LocatorView::EntryCheck {
                        entry,
                        braced,
                        field,
                        candidate: dir + executable_suffix(),
                    },
                    StepView::Ask(QueryView::FileExists { path: dir + executable_suffix() }),
                ),
                None => read == begin_field(entry, braced, field + 1),
            }
        }),
        !answer.yes() ==> transition(
            LocatorView::EntryCheck { entry, braced, field, candidate },
            answer,
            parent,
        ) == begin_field(entry, braced, field + 1),
        begin_field(entry, braced, field + 1).0 is EntryField <==> field + 1 < FIELD_COUNT,
        field + 1 >= FIELD_COUNT ==> begin_field(entry, braced, field + 1) == after_entry(
            entry,
            braced,
        ),
{
}

/// The model of an optional string.
pub open spec fn text_of(text: Option<String>) -> Option<Seq<char>> {
    match text {
        Some(t) => Some(t@),
        None => None,
    }
}

#[derive(Debug)]
enum Phase {
    DirectCommand,
    DirectCheck { candidate: String },
    AssocClass { ext: usize },
    AssocCommand { ext: usize },
    AssocCheck { ext: usize, candidate: String },
    UninstallRoot,
    EntryName { entry: u32, braced: bool },
    EntryField { entry: u32, braced: bool, field: usize },
    EntryCheck { entry: u32, braced: bool, field: usize, candidate: String },
    Finished { found: Option<String> },
}

/// The locator between two questions: it knows which answer it waits for.
#[derive(Debug)]
pub struct Locator {
    phase: Phase,
}

impl View for Locator {
    type V = LocatorView;

    closed spec fn view(&self) -> LocatorView {
        match self.phase {
            Phase::DirectCommand => LocatorView::DirectCommand,
            Phase::DirectCheck { candidate } => LocatorView::DirectCheck { candidate: candidate@ },
            Phase::AssocClass { ext } => LocatorView::AssocClass { ext: ext as int },
            Phase::AssocCommand { ext } => LocatorView::AssocCommand { ext: ext as int },
            Phase::AssocCheck { ext, candidate } => LocatorView::AssocCheck {
                ext: ext as int,
                candidate: candidate@,
            },
            Phase::UninstallRoot => LocatorView::UninstallRoot,
            Phase::EntryName { entry, braced } => LocatorView::EntryName {
                entry: entry as int,
                braced,
            },
            Phase::EntryField { entry, braced, field } => LocatorView::EntryField {
                entry: entry as int,
                braced,
                field: field as int,
            },
            Phase::EntryCheck { entry, braced, field, candidate } => LocatorView::EntryCheck {
                entry: entry as int,
                braced,
                field: field as int,
                candidate: candidate@,
            },
            Phase::Finished { found } => LocatorView::Finished { found: text_of(found) },
        }
    }
}

/// The document extension number `ext`.
fn extension_name(ext: usize) -> (name: &'static str)
    requires
        ext < EXTENSION_COUNT,
    ensures
        name@ == extension(ext as int),
{
    if ext == 0 {
        ".drp"
    } else if ext == 1 {
        ".drt"
    } else if ext == 2 {
        ".drb"
    } else if ext == 3 {
        ".drfx"
    } else {
        ".braw"
    }
}

/// The name of field number `field`.
fn field_label(field: usize) -> (name: &'static str)
    requires
        field < FIELD_COUNT,
    ensures
        name@ == field_name(field as int),
{
    if field == 0 {
        "InstallDir"
    } else if field == 1 {
        "InstallLocation"
    } else if field == 2 {
        "UninstallString"
    } else {
        "DisplayIcon"
    }
}

/// Writes the last `width` hexadecimal digits of `n`, in upper case.
pub fn format_hex(n: u32, width: u8) -> (digits: String)
    ensures
        digits@ == hex_digits(n as nat, width as nat),
    decreases width,
{
    if width == 0 {
        String::new()
    } else {
        let mut digits = format_hex(n / 16, width - 1);
        let d = (n % 16) as usize;
        let table = "0123456789ABCDEF";
        proof {
            reveal_strlit("0123456789ABCDEF");
        }
        let digit = table.substring_char(d, d + 1);
        digits.append(digit);
        assert(digits@ =~= hex_digits((n / 16) as nat, (width - 1) as nat).push(
            hex_digit(d as int),
        ));
        digits
    }
}

/// The key of entry number `entry` in the list of installed programs.
pub fn entry_key_of(entry: u32, braced: bool) -> (key: String)
    ensures
        key@ == entry_key(entry as int, braced),
{
    let mut bare = format_hex(entry, 8);
    bare.append("-0000-0000-0000-000000000000");
    let mut key = String::from_str("SOFTWARE\\Microsoft\\Windows\\CurrentVersion\\Uninstall");
    key.append("\\");
    if braced {
        let mut name = String::from_str("{");
        name.append(bare.as_str());
        name.append("}");
        key.append(name.as_str());
    } else {
        key.append(bare.as_str());
    }
    key
}

/// The chain ends.
fn end_with(found: Option<String>) -> (r: (Locator, Step))
    ensures
        (r.0@, r.1@) == ended(text_of(found)),
{
    match found {
        Some(path) => {
            let kept = path.clone();
            (Locator { phase: Phase::Finished { found: Some(kept) } }, Step::Found(path))
        },
        None => (Locator { phase: Phase::Finished { found: None } }, Step::NotFound),
    }
}

/// The second strategy turns to an extension.
fn start_assoc(ext: usize) -> (r: (Locator, Step))
    requires
        ext <= EXTENSION_COUNT,
    ensures
        (r.0@, r.1@) == begin_assoc(ext as int),
        r.0@.valid(),
{
    if ext < EXTENSION_COUNT {
        let mut key = String::from_str("SOFTWARE\\Classes\\");
        key.append(extension_name(ext));
        (
            Locator { phase: Phase::AssocClass { ext } },
            Step::Ask(Query::ReadValue { hive: Hive::LocalMachine, key, name: String::new() }),
        )
    } else {
        (
            Locator { phase: Phase::UninstallRoot },
            Step::Ask(
                Query::KeyExists {
                    hive: Hive::LocalMachine,
                    key: String::from_str("SOFTWARE\\Microsoft\\Windows\\CurrentVersion\\Uninstall"),
                },
            ),
        )
    }
}

/// The third strategy turns to an entry.
fn start_entry(entry: u32, braced: bool) -> (r: (Locator, Step))
    requires
        entry <= ENTRY_LIMIT,
    ensures
        (r.0@, r.1@) == begin_entry(entry as int, braced),
        r.0@.valid(),
{
    if entry < ENTRY_LIMIT {
        (
            Locator { phase: Phase::EntryName { entry, braced } },
            Step::Ask(
                Query::ReadValue {
                    hive: Hive::LocalMachine,
                    key: entry_key_of(entry, braced),
                    name: String::from_str("DisplayName"),
                },
            ),
        )
    } else {
        end_with(None)
    }
}

/// The third strategy leaves an entry.
fn leave_entry(entry: u32, braced: bool) -> (r: (Locator, Step))
    requires
        entry < ENTRY_LIMIT,
    ensures
        (r.0@, r.1@) == after_entry(entry as int, braced),
        r.0@.valid(),
{
    if braced {
        start_entry(entry, false)
    } else {
        start_entry(entry + 1, true)
    }
}

/// The third strategy turns to a field of an entry.
fn start_field(entry: u32, braced: bool, field: usize) -> (r: (Locator, Step))
    requires
        entry < ENTRY_LIMIT,
        field <= FIELD_COUNT,
    ensures
        (r.0@, r.1@) == begin_field(entry as int, braced, field as int),
        r.0@.valid(),
{
    if field < FIELD_COUNT {
        (
            Locator { phase: Phase::EntryField { entry, braced, field } },
            Step::Ask(
                Query::ReadValue {
                    hive: Hive::LocalMachine,
                    key: entry_key_of(entry, braced),
                    name: String::from_str(field_label(field)),
                },
            ),
        )
    } else {
        leave_entry(entry, braced)
    }
}

/// The string of an answer; an answer of another kind counts as none.
fn answer_text(answer: Answer) -> (text: Option<String>)
    ensures
        text_of(text) == answer@.text(),
{
    match answer {
        Answer::Text(text) => text,
        Answer::Flag(_) => None,
    }
}

/// Whether an answer is yes; an answer of another kind counts as no.
fn answer_yes(answer: &Answer) -> (yes: bool)
    ensures
        yes == answer@.yes(),
{
    match answer {
        Answer::Flag(flag) => *flag,
        Answer::Text(_) => false,
    }
}

/// `Path::parent`: the path without its last component, if it has one.
/// Where the last component ends goes by the rules of the platform; all that
/// is claimed of the result is that it is a beginning of the path.
#[verifier::external_body]
fn parent_dir(path: &str) -> (dir: Option<String>)
    ensures
        dir is Some ==> dir->0@.is_prefix_of(path@),
{
    match std::path::Path::new(path).parent() {
        Some(dir) => Some(dir.to_string_lossy().into_owned()),
        None => None,
    }
}

impl Locator {
    /// The counters of the state are in range.
    #[verifier::type_invariant]
    pub open spec fn well_formed(&self) -> bool {
        self@.valid()
    }

    /// Starts the chain with its first question.
    pub fn start() -> (r: (Locator, Step))
        ensures
            (r.0@, r.1@) == initial(),
    {
        (
            Locator { phase: Phase::DirectCommand },
            Step::Ask(
                Query::ReadValue {
                    hive: Hive::CurrentUser,
                    key: String::from_str("Software\\Classes\\ResolveBinFile\\shell\\open\\command"),
                    name: String::new(),
                },
            ),
        )
    }

    /// The path of which `advance_given` wants the containing directory,
    /// where it wants one.
    pub fn parent_subject_of(&self, answer: &Answer) -> (subject: Option<String>)
        ensures
            text_of(subject) == parent_subject(self@, answer@),
    {
        match (&self.phase, answer) {
            (Phase::EntryField { field, .. }, Answer::Text(Some(value))) => {
                if *field == 2 {
                    let chars = chars_of(value.as_str());
                    match quoted_span(chars.as_slice()) {
                        Some((start, end)) => {
                            proof {
                                let (a, b) = choose|a: int, b: int| is_quoted_span(value@, a, b);
                                lemma_quoted_span_unique(value@, a, b, start as int, end as int);
                            }
                            Some(value.as_str().substring_char(start, end).to_owned())
                        },
                        None => None,
                    }
                } else if *field == 3 {
                    Some(value.clone())
                } else {
                    None
                }
            },
            _ => None,
        }
    }

    /// Takes the answer to the last question and decides what comes next,
    /// `parent` being the containing directory of what `parent_subject_of`
    /// names.
    pub fn advance_given(self, answer: Answer, parent: Option<String>) -> (r: (Locator, Step))
        ensures
            (r.0@, r.1@) == transition(self@, answer@, text_of(parent)),
    {
        proof {
            use_type_invariant(&self);
        }
        match self.phase {
            Phase::DirectCommand => {
                let candidate = match answer_text(answer) {
                    Some(command) => extract_path(command.as_str()),
                    None => None,
                };
                match candidate {
                    Some(path) => {
                        let asked = path.clone();
                        (
                            Locator { phase: Phase::DirectCheck { candidate: path } },
                            Step::Ask(Query::FileExists { path: asked }),
                        )
                    },
                    None => start_assoc(0),
                }
            },
            Phase::DirectCheck { candidate } => {
                if answer_yes(&answer) {
                    end_with(Some(candidate))
                } else {
                    start_assoc(0)
                }
            },
            Phase::AssocClass { ext } => {
                match answer_text(answer) {
                    Some(class) => {
                        let mut key = String::from_str("SOFTWARE\\Classes\\");
                        key.append(class.as_str());
                        key.append("\\shell\\open\\command");
                        (
                            Locator { phase: Phase::AssocCommand { ext } },
                            Step::Ask(
                                Query::ReadValue {
                                    hive: Hive::LocalMachine,
                                    key,
                                    name: String::new(),
                                },
                            ),
                        )
                    },
                    None => start_assoc(ext + 1),
                }
            },
            Phase::AssocCommand { ext } => {
                let candidate = match answer_text(answer) {
                    Some(command) => extract_path(command.as_str()),
                    None => None,
                };
                match candidate {
                    Some(path) => {
                        let asked = path.clone();
                        (
                            Locator { phase: Phase::AssocCheck { ext, candidate: path } },
                            Step::Ask(Query::FileExists { path: asked }),
                        )
                    },
                    None => start_assoc(ext + 1),
                }
            },
            Phase::AssocCheck { ext, candidate } => {
                if answer_yes(&answer) {
                    end_with(Some(candidate))
                } else {
                    start_assoc(ext + 1)
                }
            },
            Phase::UninstallRoot => {
                if answer_yes(&answer) {
                    start_entry(0, true)
                } else {
                    end_with(None)
                }
            },
            Phase::EntryName { entry, braced } => {
                match answer_text(answer) {
                    Some(name) => {
                        if mentions_target(name.as_str()) {
                            start_field(entry, braced, 0)
                        } else {
                            leave_entry(entry, braced)
                        }
                    },
                    None => leave_entry(entry, braced),
                }
            },
            Phase::EntryField { entry, braced, field } => {
                match answer_text(answer) {
                    Some(value) => {
                        let directory = if field == 2 {
                            let chars = chars_of(value.as_str());
                            match quoted_span(chars.as_slice()) {
                                Some(_) => parent,
                                None => None,
                            }
                        } else if field == 3 {
                            parent
                        } else {
                            Some(value)
                        };
                        match directory {
                            Some(dir) => {
                                let mut candidate = dir;
                                candidate.append("\\Resolve.exe");
                                let asked = candidate.clone();
                                (
                                    Locator {
                                        phase: Phase::EntryCheck { entry, braced, field, candidate },
                                    },
                                    Step::Ask(Query::FileExists { path: asked }),
                                )
                            },
                            None => start_field(entry, braced, field + 1),
                        }
                    },
                    None => start_field(entry, braced, field + 1),
                }
            },
            Phase::EntryCheck { entry, braced, field, candidate } => {
                if answer_yes(&answer) {
                    end_with(Some(candidate))
                } else {
                    start_field(entry, braced, field + 1)
                }
            },
            Phase::Finished { found } => end_with(found),
        }
    }

    /// Takes the answer to the last question and decides what comes next.
    /// Where the decision needs the containing directory of a path, it goes
    /// by the directory that the platform gives: some beginning of the path,
    /// or none.
    pub fn advance(self, answer: Answer) -> (r: (Locator, Step))
        ensures
            exists|parent: Option<Seq<char>>|
                possible_parent(parent_subject(self@, answer@), parent) && #[trigger] transition(
                    self@,
                    answer@,
                    parent,
                ) == (r.0@, r.1@),
            parent_subject(self@, answer@) is None ==> (r.0@, r.1@) == transition(
                self@,
                answer@,
                None,
            ),
    {
        let parent = match self.parent_subject_of(&answer) {
            Some(subject) => parent_dir(subject.as_str()),
            None => None,
        };
        self.advance_given(answer, parent)
    }
}

} // verus!
