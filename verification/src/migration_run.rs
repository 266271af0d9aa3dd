//! A run of migrations, step by step: what is asked of the database next, given
//! what the last request came to.
use crate::database::FirstColumn;
use crate::migrations::{
    self, Migration, MigrationError, MigrationFile, MigrationFileView, MigrationRunner,
};
use crate::text;
use vstd::prelude::*;

verus! {

/// Where a run stands.
#[derive(Debug, Clone, Copy, PartialEq, Eq, Structural)]
pub enum Stage {
    Keyspace,
    Table,
    LookUp,
    Execute,
    Record,
    Reread,
    Over,
}

/// What a request to the database came to.
#[derive(Debug)]
pub enum Event {
    /// A statement was run.
    Done,
    /// The checksum that is noted for a migration, if one is.
    Found(Option<String>),
    /// The answer to noting that a migration was applied.
    Noted(FirstColumn),
    /// The database did not answer; the text says why.
    Broken(String),
}

/// What [`Event`] holds.
pub enum EventView {
    Done,
    Found(Option<Seq<char>>),
    Noted(FirstColumn),
    Broken(Seq<char>),
}

impl View for Event {
    type V = EventView;

    open spec fn view(&self) -> EventView {
        match *self {
            Event::Done => EventView::Done,
            Event::Found(c) => EventView::Found(text::option_view(c)),
            Event::Noted(c) => EventView::Noted(c),
            Event::Broken(s) => EventView::Broken(s@),
        }
    }
}

/// What a run does next.
#[derive(Debug)]
pub enum Task {
    /// Run this statement.
    Execute(String),
    /// Read the checksum that is noted for this migration.
    LookUp(String),
    /// Note that this migration was applied with this checksum.
    Record { name: String, checksum: String },
    /// The run is over: so many migrations were applied, so many were before.
    Finished { applied: usize, skipped: usize },
    /// The run stopped.
    Failed(MigrationError),
}

/// What [`Task`] holds. An error is known by what is said of it.
pub enum TaskView {
    Execute(Seq<char>),
    LookUp(Seq<char>),
    Record { name: Seq<char>, checksum: Seq<char> },
    Finished { applied: usize, skipped: usize },
    Failed(Seq<char>),
}

impl View for Task {
    type V = TaskView;

    open spec fn view(&self) -> TaskView {
        match *self {
            Task::Execute(s) => TaskView::Execute(s@),
            Task::LookUp(s) => TaskView::LookUp(s@),
            Task::Record { name, checksum } => TaskView::Record {
                name: name@,
                checksum: checksum@,
            },
            Task::Finished { applied, skipped } => TaskView::Finished { applied, skipped },
            Task::Failed(e) => TaskView::Failed(migrations::migration_error_text(e)),
        }
    }
}

/// A run of migrations.
#[derive(Debug)]
pub struct MigrationRun {
    pub files: Vec<MigrationFile>,
    pub at: usize,
    pub applied: usize,
    pub skipped: usize,
    pub stage: Stage,
}

/// What [`MigrationRun`] holds.
pub struct RunView {
    pub files: Seq<MigrationFileView>,
    pub at: int,
    pub applied: int,
    pub skipped: int,
    pub stage: Stage,
}

impl View for MigrationRun {
    type V = RunView;

    open spec fn view(&self) -> RunView {
        RunView {
            files: migrations::files_view(self.files@),
            at: self.at as int,
            applied: self.applied as int,
            skipped: self.skipped as int,
            stage: self.stage,
        }
    }
}

/// Whether a stage has to do with one migration.
pub open spec fn in_file(stage: Stage) -> bool {
    stage is LookUp || stage is Execute || stage is Record || stage is Reread
}

/// What holds of every run: the migrations that are behind it were either applied or
/// skipped, and the one it is at can be run.
pub open spec fn valid_run(run: RunView) -> bool {
    &&& 0 <= run.applied
    &&& 0 <= run.skipped
    &&& run.applied + run.skipped == run.at
    &&& run.at <= run.files.len()
    &&& run.files.len() <= usize::MAX
    &&& in_file(run.stage) ==> run.at < run.files.len() && run.files[run.at].content is Some
}

/// Whether an event answers what a stage asked.
pub open spec fn answers(stage: Stage, event: EventView) -> bool {
    match event {
        EventView::Done => stage is Keyspace || stage is Table || stage is Execute,
        EventView::Found(_) => stage is LookUp || stage is Reread,
        EventView::Noted(_) => stage is Record,
        EventView::Broken(_) => !(stage is Over),
    }
}

/// The end of a run.
pub open spec fn stop(run: RunView, message: Seq<char>) -> (RunView, TaskView) {
    (RunView { stage: Stage::Over, ..run }, TaskView::Failed(message))
}

/// Goes on to the migration that the run is at.
pub open spec fn enter(run: RunView) -> (RunView, TaskView) {
    if run.at >= run.files.len() {
        (
            RunView { stage: Stage::Over, ..run },
            TaskView::Finished { applied: run.applied as usize, skipped: run.skipped as usize },
        )
    } else if run.files[run.at].content is None {
        stop(run, "migration "@ + run.files[run.at].name + " is not valid UTF-8"@)
    } else {
        (RunView { stage: Stage::LookUp, ..run }, TaskView::LookUp(run.files[run.at].name))
    }
}

/// Notes that the migration was applied.
pub open spec fn note(run: RunView) -> (RunView, TaskView) {
    let file = run.files[run.at];
    (
        RunView { stage: Stage::Record, ..run },
        TaskView::Record {
            name: file.name,
            checksum: migrations::file_checksum(file.content->0),
        },
    )
}

/// Goes on behind a migration that is in place now.
pub open spec fn count_applied(run: RunView) -> (RunView, TaskView) {
    enter(RunView { at: run.at + 1, applied: run.applied + 1, ..run })
}

/// Goes on once it is known what is noted for the migration.
pub open spec fn after_look_up(run: RunView, noted: Option<Seq<char>>) -> (RunView, TaskView) {
    let file = run.files[run.at];
    let checksum = migrations::file_checksum(file.content->0);
    let statement = migrations::statement_text(file.content->0);
    match noted {
        Some(stored) => if stored == checksum {
            enter(RunView { at: run.at + 1, skipped: run.skipped + 1, ..run })
        } else {
            stop(run, migrations::changed_text(file.name, stored, checksum))
        },
        None => if statement.len() == 0 {
            note(run)
        } else if statement.contains(';') {
            stop(run, "running migration "@ + file.name)
        } else {
            (RunView { stage: Stage::Execute, ..run }, TaskView::Execute(statement))
        },
    }
}

/// Goes on once the note of another run was read.
pub open spec fn after_reread(run: RunView, noted: Option<Seq<char>>) -> (RunView, TaskView) {
    let file = run.files[run.at];
    let checksum = migrations::file_checksum(file.content->0);
    match noted {
        Some(existing) => if existing == checksum {
            count_applied(run)
        } else {
            stop(run, migrations::raced_text(file.name, existing, checksum))
        },
        None => stop(run, migrations::vanished_text(file.name)),
    }
}

/// A run of these files before anything was asked.
pub open spec fn fresh_run(files: Seq<MigrationFileView>) -> RunView {
    RunView { files, at: 0, applied: 0, skipped: 0, stage: Stage::Keyspace }
}

/// The begin of a run: the statement that creates the keyspace, or the end of the run
/// where the text for it holds more than one statement.
pub open spec fn first_step(
    files: Seq<MigrationFileView>,
    replication: Option<Seq<char>>,
) -> (RunView, TaskView) {
    let run = fresh_run(files);
    let statement = migrations::statement_text(migrations::keyspace_text(replication));
    if statement.len() == 0 {
        (
            RunView { stage: Stage::Table, ..run },
            TaskView::Execute(migrations::SCHEMA_MIGRATIONS_DDL@),
        )
    } else if statement.contains(';') {
        stop(run, "creating keyspace"@)
    } else {
        (run, TaskView::Execute(statement))
    }
}

/// The run after an event, and what it does next.
pub open spec fn next(run: RunView, event: EventView) -> (RunView, TaskView) {
    let name = run.files[run.at].name;
    match event {
        EventView::Done => match run.stage {
            Stage::Keyspace => (
                RunView { stage: Stage::Table, ..run },
                TaskView::Execute(migrations::SCHEMA_MIGRATIONS_DDL@),
            ),
            Stage::Table => enter(run),
            _ => note(run),
        },
        EventView::Found(noted) => if run.stage is LookUp {
            after_look_up(run, noted)
        } else {
            after_reread(run, noted)
        },
        EventView::Noted(column) => if column == FirstColumn::Boolean(true) {
            count_applied(run)
        } else {
            (RunView { stage: Stage::Reread, ..run }, TaskView::LookUp(name))
        },
        EventView::Broken(why) => match run.stage {
            Stage::Keyspace => stop(run, "creating keyspace"@),
            Stage::Table => stop(run, "creating schema_migrations table"@),
            Stage::Execute => stop(run, "running migration "@ + name),
            _ => stop(run, why),
        },
    }
}

impl MigrationRun {
    /// Begins a run: the keyspace is created first, by a statement that is cleaned and
    /// checked as that of a migration is.
    pub fn begin(runner: MigrationRunner, replication: &Option<String>) -> (r: (Self, Task))
        ensures
            (r.0@, r.1@) == first_step(
                migrations::files_view(runner.files@),
                text::option_view(*replication),
            ),
            valid_run(r.0@),
    {
        let n: usize = runner.files.len();
        let sql = migrations::create_keyspace_sql(replication);
        let mut run = MigrationRun {
            files: runner.files,
            at: 0,
            applied: 0,
            skipped: 0,
            stage: Stage::Keyspace,
        };
        assert(migrations::files_view(run.files@).len() == n);
        let task = match migrations::execute_cql(sql.as_str()) {
            Ok(Some(statement)) => Task::Execute(statement),
            Ok(None) => {
                run.stage = Stage::Table;
                Task::Execute(migrations::SCHEMA_MIGRATIONS_DDL.to_owned())
            },
            Err(_) => {
                run.stage = Stage::Over;
                Task::Failed(MigrationError::Keyspace)
            },
        };
        (run, task)
    }

    /// Goes on to the migration that the run is at.
    fn enter_file(&mut self) -> (r: Task)
        requires
            old(self)@.applied + old(self)@.skipped == old(self)@.at,
            old(self)@.at <= old(self)@.files.len(),
            old(self)@.files.len() <= usize::MAX,
        ensures
            (final(self)@, r@) == enter(old(self)@),
            valid_run(final(self)@),
    {
        let ghost before = self@;
        assert(before.files.len() == self.files@.len());
        if self.at >= self.files.len() {
            self.stage = Stage::Over;
            return Task::Finished { applied: self.applied, skipped: self.skipped };
        }
        let name = self.files[self.at].name.clone();
        assert(before.files[before.at] == self.files@[self.at as int]@);
        if self.files[self.at].content.is_none() {
            self.stage = Stage::Over;
            return Task::Failed(MigrationError::NotUtf8 { name });
        }
        self.stage = Stage::LookUp;
        Task::LookUp(name)
    }

    /// The migration that the run is at.
    fn current(&self) -> (r: Migration)
        requires
            self@.at < self@.files.len(),
            self@.files[self@.at].content is Some,
        ensures
            r.name@ == self@.files[self@.at].name,
            r.content@ == self@.files[self@.at].content->0,
            r.checksum@ == migrations::file_checksum(self@.files[self@.at].content->0),
    {
        assert(self@.files.len() == self.files@.len());
        assert(self@.files[self@.at] == self.files@[self.at as int]@);
        let file = &self.files[self.at];
        match &file.content {
            Some(content) => Migration {
                name: file.name.clone(),
                content: content.clone(),
                checksum: migrations::compute_checksum(content.as_str()),
            },
            None => Migration {
                name: file.name.clone(),
                content: String::new(),
                checksum: String::new(),
            },
        }
    }

    /// Notes that the migration was applied.
    fn note_applied(&mut self) -> (r: Task)
        requires
            valid_run(old(self)@),
            in_file(old(self)@.stage),
        ensures
            (final(self)@, r@) == note(old(self)@),
            valid_run(final(self)@),
    {
        let migration = self.current();
        self.stage = Stage::Record;
        Task::Record { name: migration.name, checksum: migration.checksum }
    }

    /// Goes on behind a migration that is in place now.
    fn count_one(&mut self) -> (r: Task)
        requires
            valid_run(old(self)@),
            in_file(old(self)@.stage),
        ensures
            (final(self)@, r@) == count_applied(old(self)@),
            valid_run(final(self)@),
    {
        self.at = self.at + 1;
        self.applied = self.applied + 1;
        self.enter_file()
    }

    /// Goes on once it is known what is noted for the migration.
    fn looked_up(&mut self, noted: Option<String>) -> (r: Task)
        requires
            valid_run(old(self)@),
            old(self)@.stage is LookUp,
        ensures
            (final(self)@, r@) == after_look_up(old(self)@, text::option_view(noted)),
            valid_run(final(self)@),
    {
        let migration = self.current();
        match migrations::lookup_applied(&migration, &noted) {
            Err(e) => {
                self.stage = Stage::Over;
                Task::Failed(e)
            },
            Ok(false) => {
                self.at = self.at + 1;
                self.skipped = self.skipped + 1;
                self.enter_file()
            },
            Ok(true) => match migrations::execute_cql(migration.content.as_str()) {
                Ok(Some(statement)) => {
                    self.stage = Stage::Execute;
                    Task::Execute(statement)
                },
                Ok(None) => self.note_applied(),
                Err(_) => {
                    self.stage = Stage::Over;
                    Task::Failed(MigrationError::Running { name: migration.name })
                },
            },
        }
    }

    /// Goes on once the note of another run was read.
    fn reread(&mut self, noted: Option<String>) -> (r: Task)
        requires
            valid_run(old(self)@),
            old(self)@.stage is Reread,
        ensures
            (final(self)@, r@) == after_reread(old(self)@, text::option_view(noted)),
            valid_run(final(self)@),
    {
        let migration = self.current();
        match migrations::verify_recorded(&migration, &noted) {
            Ok(()) => self.count_one(),
            Err(e) => {
                self.stage = Stage::Over;
                Task::Failed(e)
            },
        }
    }

    /// Goes on after an event.
    pub fn run_migrations(&mut self, event: Event) -> (r: Task)
        requires
            valid_run(old(self)@),
            answers(old(self)@.stage, event@),
        ensures
            (final(self)@, r@) == next(old(self)@, event@),
            valid_run(final(self)@),
    {
        match event {
            Event::Done => match self.stage {
                Stage::Keyspace => {
                    self.stage = Stage::Table;
                    Task::Execute(migrations::SCHEMA_MIGRATIONS_DDL.to_owned())
                },
                Stage::Table => self.enter_file(),
                _ => self.note_applied(),
            },
            Event::Found(noted) => match self.stage {
                Stage::LookUp => self.looked_up(noted),
                _ => self.reread(noted),
            },
            Event::Noted(column) => if migrations::record_applied(column) {
                self.count_one()
            } else {
                let migration = self.current();
                self.stage = Stage::Reread;
                Task::LookUp(migration.name)
            },
            Event::Broken(why) => {
                let stage = self.stage;
                let error = match stage {
                    Stage::Keyspace => MigrationError::Keyspace,
                    Stage::Table => MigrationError::Table,
                    Stage::Execute => MigrationError::Running { name: self.current().name },
                    _ => MigrationError::Query(why),
                };
                self.stage = Stage::Over;
                Task::Failed(error)
            },
        }
    }
}

/// How far a run is from its end.
pub open spec fn steps_left(run: RunView) -> int {
    let files = 4 * (run.files.len() - run.at);
    match run.stage {
        Stage::Keyspace => files + 6,
        Stage::Table => files + 5,
        Stage::LookUp => files + 4,
        Stage::Execute => files + 3,
        Stage::Record => files + 2,
        Stage::Reread => files + 1,
        Stage::Over => 0,
    }
}

/// A run ends: every event brings it closer to its end.
pub proof fn law_run_ends(run: RunView, event: EventView)
    requires
        valid_run(run),
        answers(run.stage, event),
    ensures
        0 <= steps_left(next(run, event).0) < steps_left(run),
        valid_run(next(run, event).0),
{
}

/// A run that finishes has every migration in place: each was either applied by it or
/// had been applied before.
pub proof fn law_finished_run_is_complete(run: RunView, event: EventView)
    requires
        valid_run(run),
        answers(run.stage, event),
    ensures
        next(run, event).1 matches TaskView::Finished { applied, skipped } ==> applied + skipped
            == run.files.len(),
{
}

/// A migration that is noted with the checksum of its file is not run again.
pub proof fn law_noted_migration_is_skipped(run: RunView)
    requires
        valid_run(run),
        run.stage is LookUp,
    ensures
        ({
            let checksum = migrations::file_checksum(run.files[run.at].content->0);
            let (after, task) = next(run, EventView::Found(Some(checksum)));
            &&& !(task is Execute)
            &&& !(task is Record)
            &&& after.skipped == run.skipped + 1
            &&& after.applied == run.applied
        }),
{
}

/// A run and its task after several events.
pub open spec fn after_all(
    start: (RunView, TaskView),
    events: Seq<EventView>,
) -> (RunView, TaskView)
    decreases events.len(),
{
    if events.len() == 0 {
        start
    } else {
        next(after_all(start, events.drop_last()).0, events.last())
    }
}

/// The checksum that is noted for a name, if one is.
pub open spec fn noted_for(notes: Map<Seq<char>, Seq<char>>, name: Seq<char>) -> Option<
    Seq<char>,
> {
    if notes.contains_key(name) {
        Some(notes[name])
    } else {
        None
    }
}

/// Whether an event answers a run truly, where the notes go from `before` to `after`:
/// notes are only added, by this run or by others, what is read is what is noted, and a
/// note that was applied is there.
pub open spec fn truthful(
    run: RunView,
    event: EventView,
    before: Map<Seq<char>, Seq<char>>,
    after: Map<Seq<char>, Seq<char>>,
) -> bool {
    let file = run.files[run.at];
    &&& answers(run.stage, event)
    &&& before.submap_of(after)
    &&& match event {
        EventView::Found(noted) => noted == noted_for(after, file.name),
        EventView::Noted(column) => column == FirstColumn::Boolean(true) ==> noted_for(
            after,
            file.name,
        ) == Some(migrations::file_checksum(file.content->0)),
        _ => true,
    }
}

/// Whether every event of a run is answered truly, where `notes` are the notes before
/// the first event and after each one.
pub open spec fn truthful_run(
    start: (RunView, TaskView),
    events: Seq<EventView>,
    notes: Seq<Map<Seq<char>, Seq<char>>>,
) -> bool {
    &&& notes.len() == events.len() + 1
    &&& forall|i: int|
        0 <= i < events.len() ==> truthful(
            after_all(start, events.take(i)).0,
            #[trigger] events[i],
            notes[i],
            notes[i + 1],
        )
}

/// Whether the first `n` files are noted with the checksums of what they hold.
pub open spec fn all_noted(
    files: Seq<MigrationFileView>,
    n: int,
    notes: Map<Seq<char>, Seq<char>>,
) -> bool {
    forall|i: int|
        0 <= i < n ==> (#[trigger] files[i]).content is Some && noted_for(notes, files[i].name)
            == Some(migrations::file_checksum(files[i].content->0))
}

/// What a run has behind it is noted, with the checksums of the files.
pub proof fn law_what_a_run_has_behind_it_is_noted(
    start: (RunView, TaskView),
    events: Seq<EventView>,
    notes: Seq<Map<Seq<char>, Seq<char>>>,
)
    requires
        valid_run(start.0),
        start.0.at == 0,
        truthful_run(start, events, notes),
    ensures
        ({
            let after = after_all(start, events).0;
            &&& valid_run(after)
            &&& after.files == start.0.files
            &&& all_noted(after.files, after.at, notes.last())
        }),
    decreases events.len(),
{
    if events.len() > 0 {
        let n = events.len() - 1;
        let front = events.drop_last();
        let earlier = notes.drop_last();
        assert(events.take(n) =~= front);
        assert(truthful_run(start, front, earlier)) by {
            assert forall|i: int| 0 <= i < front.len() implies truthful(
                after_all(start, front.take(i)).0,
                #[trigger] front[i],
                earlier[i],
                earlier[i + 1],
            ) by {
                assert(front.take(i) =~= events.take(i));
                assert(front[i] == events[i]);
            }
        }
        law_what_a_run_has_behind_it_is_noted(start, front, earlier);
        let run = after_all(start, front).0;
        let event = events[n];
        assert(truthful(run, event, notes[n], notes[n + 1]));
        let after = next(run, event).0;
        assert forall|i: int| 0 <= i < after.at implies (#[trigger] after.files[i]).content is Some
            && noted_for(notes.last(), after.files[i].name) == Some(
            migrations::file_checksum(after.files[i].content->0),
        ) by {
            if i < run.at {
                let name = run.files[i].name;
                assert(noted_for(notes[n], name) is Some);
                assert(notes[n].dom().contains(name));
                assert(notes[n + 1].dom().contains(name));
            }
        }
    }
}

/// How many events it takes a run that finds every file noted to come to its end.
pub open spec fn quiet_len(run: RunView) -> int {
    run.files.len() + (if run.stage is Keyspace {
        2int
    } else {
        1int
    })
}

/// Where a run stands after some events if it finds every file noted.
spec fn quiet_state(start: RunView, i: int) -> RunView {
    let behind = i - (quiet_len(start) - start.files.len());
    if i == 0 {
        start
    } else if behind < 0 {
        RunView { stage: Stage::Table, ..start }
    } else {
        RunView {
            at: behind,
            skipped: behind,
            stage: if behind < start.files.len() {
                Stage::LookUp
            } else {
                Stage::Over
            },
            ..start
        }
    }
}

proof fn lemma_quiet_run(
    start: (RunView, TaskView),
    events: Seq<EventView>,
    notes: Map<Seq<char>, Seq<char>>,
)
    requires
        valid_run(start.0),
        start.0.at == 0,
        start.0.stage is Keyspace || start.0.stage is Table,
        all_noted(start.0.files, start.0.files.len() as int, notes),
        events.len() <= quiet_len(start.0),
        forall|i: int|
            0 <= i < events.len() ==> !(events[i] is Broken) && truthful(
                after_all(start, events.take(i)).0,
                #[trigger] events[i],
                notes,
                notes,
            ),
    ensures
        ({
            let n = start.0.files.len() as int;
            let behind = events.len() - (quiet_len(start.0) - n);
            let (after, task) = after_all(start, events);
            &&& after == quiet_state(start.0, events.len() as int)
            &&& 0 <= behind < n ==> task == TaskView::LookUp(start.0.files[behind].name)
            &&& behind == n ==> task == (TaskView::Finished { applied: 0, skipped: n as usize })
        }),
    decreases events.len(),
{
    if events.len() > 0 {
        let k = events.len() - 1;
        let front = events.drop_last();
        assert(events.take(k) =~= front);
        assert forall|i: int| 0 <= i < front.len() implies !(front[i] is Broken) && truthful(
            after_all(start, front.take(i)).0,
            #[trigger] front[i],
            notes,
            notes,
        ) by {
            assert(front.take(i) =~= events.take(i));
            assert(front[i] == events[i]);
        }
        lemma_quiet_run(start, front, notes);
        let run = after_all(start, front).0;
        let event = events[k];
        assert(truthful(run, event, notes, notes));
        if in_file(run.stage) {
            assert(run.files[run.at].content is Some);
        }
        let behind = events.len() - (quiet_len(start.0) - start.0.files.len());
        if 0 <= behind < start.0.files.len() {
            assert(start.0.files[behind].content is Some);
        }
    }
}

proof fn lemma_second_run(
    start: (RunView, TaskView),
    first: Seq<EventView>,
    notes: Seq<Map<Seq<char>, Seq<char>>>,
    second: Seq<EventView>,
)
    requires
        valid_run(start.0),
        start.0.at == 0,
        start.0.stage is Keyspace || start.0.stage is Table,
        truthful_run(start, first, notes),
        after_all(start, first).1 is Finished,
        first.len() > 0,
        second.len() == quiet_len(start.0),
        forall|i: int|
            0 <= i < second.len() ==> !(second[i] is Broken) && truthful(
                after_all(start, second.take(i)).0,
                #[trigger] second[i],
                notes.last(),
                notes.last(),
            ),
    ensures
        all_noted(start.0.files, start.0.files.len() as int, notes.last()),
        after_all(start, second).1 == (TaskView::Finished {
            applied: 0,
            skipped: start.0.files.len() as usize,
        }),
        forall|i: int|
            second.len() - start.0.files.len() <= i <= second.len() ==> {
                let task = (#[trigger] after_all(start, second.take(i))).1;
                task is LookUp || task is Finished
            },
{
    let files = start.0.files;
    law_what_a_run_has_behind_it_is_noted(start, first, notes);
    let k = first.len() - 1;
    let front = first.drop_last();
    let earlier = notes.drop_last();
    assert(first.take(k) =~= front);
    assert(truthful(after_all(start, first.take(k)).0, first[k], notes[k], notes[k + 1]));
    assert(truthful_run(start, front, earlier)) by {
        assert forall|i: int| 0 <= i < front.len() implies truthful(
            after_all(start, front.take(i)).0,
            #[trigger] front[i],
            earlier[i],
            earlier[i + 1],
        ) by {
            assert(front.take(i) =~= first.take(i));
            assert(front[i] == first[i]);
        }
    }
    law_what_a_run_has_behind_it_is_noted(start, front, earlier);
    assert(after_all(start, first).0.at == files.len());
    lemma_quiet_run(start, second, notes.last());
    assert forall|i: int| second.len() - files.len() <= i <= second.len() implies {
        let task = (#[trigger] after_all(start, second.take(i))).1;
        task is LookUp || task is Finished
    } by {
        let part = second.take(i);
        assert forall|j: int| 0 <= j < part.len() implies !(part[j] is Broken) && truthful(
            after_all(start, part.take(j)).0,
            #[trigger] part[j],
            notes.last(),
            notes.last(),
        ) by {
            assert(part.take(j) =~= second.take(j));
            assert(part[j] == second[j]);
        }
        lemma_quiet_run(start, part, notes.last());
    }
}

/// A second run over the files of a run that finished finds every file noted, runs none
/// of them and notes nothing: behind the keyspace and the table it only looks each file
/// up, and it finishes with all of them skipped.
pub proof fn law_second_run_changes_nothing(
    files: Seq<MigrationFileView>,
    replication: Option<Seq<char>>,
    first: Seq<EventView>,
    notes: Seq<Map<Seq<char>, Seq<char>>>,
    second: Seq<EventView>,
)
    requires
        files.len() <= usize::MAX,
        truthful_run(first_step(files, replication), first, notes),
        after_all(first_step(files, replication), first).1 is Finished,
        second.len() == quiet_len(first_step(files, replication).0),
        forall|i: int|
            0 <= i < second.len() ==> !(second[i] is Broken) && truthful(
                after_all(first_step(files, replication), second.take(i)).0,
                #[trigger] second[i],
                notes.last(),
                notes.last(),
            ),
    ensures
        all_noted(files, files.len() as int, notes.last()),
        after_all(first_step(files, replication), second).1 == (TaskView::Finished {
            applied: 0,
            skipped: files.len() as usize,
        }),
        forall|i: int|
            second.len() - files.len() <= i <= second.len() ==> {
                let task = (#[trigger] after_all(
                    first_step(files, replication),
                    second.take(i),
                )).1;
                task is LookUp || task is Finished
            },
{
    let start = first_step(files, replication);
    assert(first.len() > 0);
    assert(truthful(after_all(start, first.take(0)).0, first[0], notes[0], notes[1]));
    assert(first.take(0) =~= Seq::<EventView>::empty());
    assert(valid_run(start.0) && start.0.files == files);
    assert(start.0.stage is Keyspace || start.0.stage is Table);
    lemma_second_run(start, first, notes, second);
}

/// A migration whose file changed since it was applied stops the run before anything
/// of it is run.
pub proof fn law_changed_migration_stops_the_run(run: RunView, stored: Seq<char>)
    requires
        valid_run(run),
        run.stage is LookUp,
        stored != migrations::file_checksum(run.files[run.at].content->0),
    ensures
        next(run, EventView::Found(Some(stored))).0.stage is Over,
        next(run, EventView::Found(Some(stored))).1 is Failed,
{
}

/// What a run asks for is always about the migration that it is at, so that
/// migrations are looked up in the order of the files.
pub proof fn law_migrations_are_taken_in_order(run: RunView, event: EventView)
    requires
        valid_run(run),
        answers(run.stage, event),
    ensures
        ({
            let (after, task) = next(run, event);
            &&& run.at <= after.at <= run.at + 1
            &&& task matches TaskView::LookUp(name) ==> name == run.files[after.at].name
            &&& task matches TaskView::Record { name, .. } ==> name == run.files[after.at].name
            &&& after.files == run.files
        }),
{
}

/// A migration that is not noted is run before it is noted: where its file holds one
/// statement, that is what is run; where it holds none, there is nothing to run and it is
/// noted; where it holds several, the run stops. Once the statement was run, the migration
/// is noted under its name, with the checksum of its file.
pub proof fn law_new_migration_is_run_and_then_noted(run: RunView)
    requires
        valid_run(run),
        run.stage is LookUp,
    ensures
        ({
            let file = run.files[run.at];
            let statement = migrations::statement_text(file.content->0);
            let record = TaskView::Record {
                name: file.name,
                checksum: migrations::file_checksum(file.content->0),
            };
            let (looked_up, task) = next(run, EventView::Found(None));
            let (executed, then) = next(looked_up, EventView::Done);
            &&& statement.len() > 0 && !statement.contains(';') ==> {
                &&& task == TaskView::Execute(statement)
                &&& looked_up.stage is Execute
                &&& looked_up.at == run.at && looked_up.applied == run.applied
                &&& then == record
                &&& executed.stage is Record
                &&& executed.at == run.at && executed.applied == run.applied
            }
            &&& statement.len() == 0 ==> task == record && looked_up.stage is Record && looked_up.at
                == run.at
            &&& statement.contains(';') ==> task is Failed && looked_up.stage is Over
        }),
{
}

/// Nothing is noted that was not run: a migration is only noted once its statement was
/// run, or where its file holds none and it was not noted before.
pub proof fn law_nothing_is_noted_that_was_not_run(run: RunView, event: EventView)
    requires
        valid_run(run),
        answers(run.stage, event),
    ensures
        next(run, event).1 is Record ==> {
            ||| run.stage is Execute && event is Done
            ||| {
                &&& run.stage is LookUp
                &&& event == EventView::Found(None)
                &&& migrations::statement_text(run.files[run.at].content->0).len() == 0
            }
        },
        next(run, event).1 is Execute ==> {
            ||| run.stage is Keyspace && event is Done
            ||| run.stage is LookUp && event == EventView::Found(None)
        },
{
}

/// A database that does not answer stops the run, which counts nothing for it.
pub proof fn law_broken_request_stops_the_run(run: RunView, why: Seq<char>)
    requires
        valid_run(run),
        !(run.stage is Over),
    ensures
        ({
            let (after, task) = next(run, EventView::Broken(why));
            &&& task is Failed
            &&& after.stage is Over
            &&& after.at == run.at && after.applied == run.applied && after.skipped == run.skipped
        }),
{
}

/// A migration counts as applied once its note is in place: because this run put it there,
/// or because it was there already, with the same checksum. A note of another checksum,
/// and one that is gone, stop the run.
pub proof fn law_applied_migration_has_its_note_in_place(
    run: RunView,
    column: FirstColumn,
    noted: Option<Seq<char>>,
)
    requires
        valid_run(run),
        run.stage is Record,
    ensures
        ({
            let file = run.files[run.at];
            let ours = migrations::file_checksum(file.content->0);
            let (after, task) = next(run, EventView::Noted(column));
            let (reread, then) = next(after, EventView::Found(noted));
            &&& column == FirstColumn::Boolean(true) ==> after.at == run.at + 1 && after.applied
                == run.applied + 1 && after.skipped == run.skipped
            &&& column != FirstColumn::Boolean(true) ==> {
                &&& after.at == run.at && after.applied == run.applied
                &&& task == TaskView::LookUp(file.name)
                &&& noted == Some(ours) ==> reread.at == run.at + 1 && reread.applied == run.applied
                    + 1 && reread.skipped == run.skipped
                &&& noted != Some(ours) ==> then is Failed && reread.stage is Over
                    && reread.applied == run.applied
            }
        }),
{
}

/// The keyspace comes before the table, and the table before the first migration; a file
/// that is no text stops the run at it; and the run finishes behind the last file, and
/// nowhere else, with what it counted.
pub proof fn law_run_goes_from_file_to_file(run: RunView, event: EventView)
    requires
        valid_run(run),
        answers(run.stage, event),
    ensures
        ({
            let (after, task) = next(run, event);
            &&& run.stage is Keyspace && event is Done ==> after.stage is Table && task
                == TaskView::Execute(migrations::SCHEMA_MIGRATIONS_DDL@)
            &&& run.stage is Table && event is Done && run.at < run.files.len()
                && run.files[run.at].content is Some ==> task == TaskView::LookUp(
                run.files[run.at].name,
            ) && after.stage is LookUp
            &&& after.at > run.at && after.at < run.files.len() && run.files[after.at].content is Some
                ==> task == TaskView::LookUp(run.files[after.at].name) && after.stage is LookUp
            &&& after.at > run.at && after.at < run.files.len() && run.files[after.at].content is None
                ==> task is Failed
            &&& after.at > run.at && after.at == run.files.len() ==> task == (TaskView::Finished {
                applied: after.applied as usize,
                skipped: after.skipped as usize,
            })
            &&& task is Finished ==> after.at == run.files.len() && after.stage is Over
            &&& task is Failed || task is Finished <==> after.stage is Over
        }),
{
}

} // verus!
