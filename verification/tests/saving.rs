use equicloud::database::{self, DatabaseError, FirstColumn, PreparedSave, PreparedSettings};
use equicloud::migration_run::{Event, MigrationRun, Task};
use equicloud::migrations::{self, MigrationError, MigrationFile, MigrationRunner};
use equicloud::rounds::{
    self, BoundSettings, BoundWrite, DataWrite, SaveState, SettingsState,
};

#[test]
fn a_new_value_is_inserted() {
    let state = rounds::begin_save();
    assert_eq!(state, SaveState::Reading { attempt: 0 });
    let state = rounds::save_data_key_lwt(0, None, 77);
    let write = DataWrite::Insert { version: 1, at: 77 };
    assert_eq!(state, SaveState::Writing { attempt: 0, write });
    let state = rounds::after_write(0, write, true);
    assert_eq!(state, SaveState::Saved { version: 1, at: 77 });
    assert_eq!(rounds::save_result(state).unwrap().unwrap(), Some((1, 77)));
}

#[test]
fn a_stored_value_gets_the_next_version() {
    let state = rounds::save_data_key_lwt(2, Some(8), 5);
    let write = DataWrite::Update { expected: 8, version: 9, at: 5 };
    assert_eq!(state, SaveState::Writing { attempt: 2, write });
    assert_eq!(rounds::after_write(2, write, true), SaveState::Saved { version: 9, at: 5 });
    assert_eq!(rounds::after_write(2, write, false), SaveState::Reading { attempt: 3 });
}

#[test]
fn saving_gives_up_after_five_rounds() {
    let mut state = rounds::begin_save();
    let mut writes = 0;
    while let SaveState::Reading { attempt } = state {
        if let SaveState::Writing { attempt, write } = rounds::save_data_key_lwt(attempt, Some(1), 0) {
            writes += 1;
            state = rounds::after_write(attempt, write, false);
        }
    }
    assert_eq!(writes, 5);
    assert_eq!(state, SaveState::Failed);
    assert!(matches!(
        rounds::save_result(state),
        Some(Err(DatabaseError::KeyContention))
    ));
    assert!(rounds::save_result(rounds::begin_save()).is_none());
}

#[test]
fn values_must_fit_in_the_room() {
    let fits = rounds::save_data_key_with_quota_check(0, 90, Some((4, 30)), 40, 100, 1);
    assert_eq!(
        fits,
        SaveState::Writing {
            attempt: 0,
            write: DataWrite::Update { expected: 4, version: 5, at: 1 },
        }
    );
    let full = rounds::save_data_key_with_quota_check(0, 90, Some((4, 30)), 41, 100, 1);
    assert_eq!(full, SaveState::OverQuota);
    assert_eq!(rounds::save_result(full).unwrap().unwrap(), None);
    let fresh = rounds::save_data_key_with_quota_check(0, 90, None, 11, 100, 1);
    assert_eq!(fresh, SaveState::OverQuota);
}

#[test]
fn settings_are_updated_or_inserted() {
    let start = rounds::save_user_settings();
    assert_eq!(start, SettingsState::Updating { attempt: 0 });
    assert_eq!(rounds::after_settings_write(start, true), SettingsState::Written);
    let insert = rounds::after_settings_write(start, false);
    assert_eq!(insert, SettingsState::Inserting { attempt: 0 });
    assert_eq!(rounds::after_settings_write(insert, true), SettingsState::Written);
    assert_eq!(rounds::settings_result(SettingsState::Written, 12).unwrap().unwrap(), 12);
    let mut state = start;
    let mut writes = 0;
    while rounds::settings_result(state, 1).is_none() {
        state = rounds::after_settings_write(state, false);
        writes += 1;
    }
    assert_eq!(writes, 10);
    assert!(matches!(
        rounds::settings_result(state, 1),
        Some(Err(DatabaseError::SettingsContention))
    ));
}

#[test]
fn secrets_are_random_hexadecimal() {
    assert_eq!(rounds::secret_from_bytes(&[0, 255, 16]), "00ff10");
    let one = rounds::new_secret();
    let two = rounds::new_secret();
    assert_eq!(one.len(), 64);
    assert!(one.chars().all(|c| c.is_ascii_hexdigit()));
    assert_ne!(one, two);
    assert_eq!(
        rounds::get_or_create_user_auth_secret("s".to_string(), true),
        Some("s".to_string())
    );
    assert_eq!(rounds::get_or_create_user_auth_secret("s".to_string(), false), None);
    assert_eq!(rounds::existing_secret(Some("t".to_string())).unwrap(), "t");
    assert!(matches!(
        rounds::existing_secret(None),
        Err(DatabaseError::SecretVanished)
    ));
}

fn file(name: &str, content: &str) -> MigrationFile {
    MigrationFile {
        name: name.to_string(),
        content: Some(content.to_string()),
    }
}

#[test]
fn migrations_are_chosen_and_sorted() {
    let runner = MigrationRunner::new(vec![
        file("010_c.cql", ""),
        file("notes.txt", ""),
        file("002_b.cql", ""),
        file(".cql", ""),
        file("001_a.cql", ""),
        file("01.cql", ""),
    ]);
    let names: Vec<&str> = runner.files.iter().map(|f| f.name.as_str()).collect();
    assert_eq!(names, ["001_a.cql", "002_b.cql", "01.cql", "010_c.cql"]);
}

#[test]
fn comments_are_stripped() {
    assert_eq!(migrations::strip_comments("a -- b\nc\r\n-- d\ne\r"), "a \nc\n\ne\r");
    assert_eq!(migrations::strip_comments("a\n"), "a");
    assert_eq!(migrations::strip_comments("a - - b"), "a - - b");
    assert_eq!(migrations::strip_block_comments("a /* b */ c"), "a  c");
    assert_eq!(migrations::strip_block_comments("a /* b"), "a /* b");
    assert_eq!(migrations::strip_block_comments("/**/x/* /* */y*/"), "xy*/");
    assert_eq!(migrations::strip_block_comments("/*/ x"), "/*/ x");
    assert_eq!(migrations::strip_block_comments("a / b * c"), "a / b * c");
}

#[test]
fn files_hold_one_statement() {
    assert_eq!(
        migrations::execute_cql("-- first\nCREATE /* x */ TABLE t (a INT);\n").unwrap(),
        Some("CREATE  TABLE t (a INT)".to_string())
    );
    assert_eq!(migrations::execute_cql(" -- nothing\n /* here */ ;").unwrap(), None);
    assert!(matches!(
        migrations::execute_cql("A; B;"),
        Err(MigrationError::MultipleStatements)
    ));
    assert_eq!(migrations::execute_cql("A ; ").unwrap(), Some("A".to_string()));
}

#[test]
fn keyspaces_have_a_default_replication() {
    let default = "CREATE KEYSPACE IF NOT EXISTS equicloud WITH REPLICATION = {'class': 'SimpleStrategy', 'replication_factor': 1} AND DURABLE_WRITES = true";
    assert_eq!(migrations::create_keyspace_sql(&None), default);
    assert_eq!(migrations::create_keyspace_sql(&Some("  ".to_string())), default);
    assert_eq!(
        migrations::create_keyspace_sql(&Some("{x}".to_string())),
        "CREATE KEYSPACE IF NOT EXISTS equicloud WITH REPLICATION = {x} AND DURABLE_WRITES = true"
    );
}

#[test]
fn migration_errors_have_messages() {
    let name = || "m".to_string();
    assert_eq!(MigrationError::Keyspace.message(), "creating keyspace");
    assert_eq!(MigrationError::Table.message(), "creating schema_migrations table");
    assert_eq!(
        MigrationError::NotUtf8 { name: name() }.message(),
        "migration m is not valid UTF-8"
    );
    assert_eq!(
        MigrationError::Changed { name: name(), stored: "a".to_string(), current: "b".to_string() }
            .message(),
        "Migration m was previously applied with checksum a but the current file has checksum b. Migration files must not be modified after deployment; add a new migration instead."
    );
    assert_eq!(
        MigrationError::MultipleStatements.message(),
        "Migration contains multiple statements; each .cql file must contain exactly one statement"
    );
    assert_eq!(MigrationError::Running { name: name() }.message(), "running migration m");
    assert_eq!(
        MigrationError::Raced { name: name(), existing: "a".to_string(), ours: "b".to_string() }
            .message(),
        "Migration m race detected: bookkeeping row has checksum a but we tried to record b. Likely two replicas running different code revisions."
    );
    assert_eq!(
        MigrationError::Vanished { name: name() }.message(),
        "Migration m bookkeeping row vanished after a not-applied INSERT \u{2014} DB consistency issue"
    );
    assert_eq!(MigrationError::Query("down".to_string()).message(), "down");
}

fn begun(files: Vec<MigrationFile>) -> (MigrationRun, Task) {
    let (mut run, task) = MigrationRun::begin(MigrationRunner::new(files), &None);
    assert!(matches!(task, Task::Execute(s) if s.starts_with("CREATE KEYSPACE")));
    let task = run.run_migrations(Event::Done);
    assert!(matches!(task, Task::Execute(s) if s.starts_with("CREATE TABLE IF NOT EXISTS equicloud.schema_migrations")));
    let task = run.run_migrations(Event::Done);
    (run, task)
}

#[test]
fn new_migrations_are_run_and_noted() {
    let (mut run, task) = begun(vec![file("2.cql", "B;"), file("1.cql", "A;")]);
    assert!(matches!(task, Task::LookUp(name) if name == "1.cql"));
    let task = run.run_migrations(Event::Found(None));
    assert!(matches!(task, Task::Execute(s) if s == "A"));
    let task = run.run_migrations(Event::Done);
    let sum = migrations::compute_checksum("A;");
    assert_eq!(sum.len(), 64);
    assert_eq!(migrations::checksum_of_digest(&[1, 171]), "01ab");
    assert!(matches!(task, Task::Record { name, checksum } if name == "1.cql" && checksum == sum));
    let task = run.run_migrations(Event::Noted(FirstColumn::Boolean(true)));
    assert!(matches!(task, Task::LookUp(name) if name == "2.cql"));
    let sum = migrations::compute_checksum("B;");
    let task = run.run_migrations(Event::Found(Some(sum)));
    assert!(matches!(task, Task::Finished { applied: 1, skipped: 1 }));
}

#[test]
fn changed_migrations_stop_the_run() {
    let (mut run, _) = begun(vec![file("1.cql", "A;")]);
    let task = run.run_migrations(Event::Found(Some("old".to_string())));
    assert!(matches!(task, Task::Failed(MigrationError::Changed { stored, .. }) if stored == "old"));
}

#[test]
fn two_runs_at_once_must_agree() {
    let sum = migrations::compute_checksum("A;");
    for (found, fine) in [(Some(sum), true), (Some("other".to_string()), false), (None, false)] {
        let (mut run, _) = begun(vec![file("1.cql", "A;")]);
        run.run_migrations(Event::Found(None));
        run.run_migrations(Event::Done);
        let task = run.run_migrations(Event::Noted(FirstColumn::Boolean(false)));
        assert!(matches!(task, Task::LookUp(name) if name == "1.cql"));
        let task = run.run_migrations(Event::Found(found));
        if fine {
            assert!(matches!(task, Task::Finished { applied: 1, skipped: 0 }));
        } else {
            assert!(matches!(
                task,
                Task::Failed(MigrationError::Raced { .. } | MigrationError::Vanished { .. })
            ));
        }
    }
}

#[test]
fn broken_steps_stop_the_run() {
    let (mut run, _) = MigrationRun::begin(MigrationRunner::new(vec![]), &None);
    let task = run.run_migrations(Event::Broken("down".to_string()));
    assert!(matches!(task, Task::Failed(MigrationError::Keyspace)));
    let (mut run, _) = begun(vec![file("1.cql", "A; B")]);
    let task = run.run_migrations(Event::Found(None));
    assert!(matches!(task, Task::Failed(MigrationError::Running { name }) if name == "1.cql"));
    let binary = MigrationFile { name: "1.cql".to_string(), content: None };
    let (_, task) = begun(vec![binary]);
    assert!(matches!(task, Task::Failed(MigrationError::NotUtf8 { name }) if name == "1.cql"));
    let (_, task) = begun(vec![]);
    assert!(matches!(task, Task::Finished { applied: 0, skipped: 0 }));
}

#[test]
fn writes_carry_the_whole_value() {
    let p = PreparedSave {
        id: "u".to_string(),
        key: "k".to_string(),
        stored: vec![1, 2],
        checksum: "c".to_string(),
        size_bytes: 9,
    };
    assert!(matches!(
        rounds::bind_write(&p, DataWrite::Insert { version: 1, at: 5 }),
        BoundWrite::Insert {
            id: "u",
            key: "k",
            stored: [1, 2],
            version: 1,
            checksum: "c",
            size_bytes: 9,
            created_at: 5,
            updated_at: 5,
        }
    ));
    assert!(matches!(
        rounds::bind_write(&p, DataWrite::Update { expected: 3, version: 4, at: 6 }),
        BoundWrite::Update {
            stored: [1, 2],
            version: 4,
            checksum: "c",
            size_bytes: 9,
            updated_at: 6,
            id: "u",
            key: "k",
            expected: 3,
        }
    ));
    let saved = database::saved_entry(p, 4, 6);
    assert_eq!((saved.key.as_str(), saved.checksum.as_str()), ("k", "c"));
    assert_eq!((saved.version, saved.size_bytes, saved.updated_at), (4, 9, 6));
}

#[test]
fn settings_writes_carry_the_settings() {
    let p = PreparedSettings { id: "u".to_string(), settings: vec![3] };
    let start = rounds::save_user_settings();
    assert!(matches!(
        rounds::bind_settings(&p, start, 7),
        Some(BoundSettings::Update { settings: [3], updated_at: 7, id: "u" })
    ));
    let insert = rounds::after_settings_write(start, false);
    assert!(matches!(
        rounds::bind_settings(&p, insert, 7),
        Some(BoundSettings::Insert { id: "u", settings: [3], created_at: 7, updated_at: 7 })
    ));
    assert!(rounds::bind_settings(&p, SettingsState::Written, 7).is_none());
    assert!(rounds::bind_settings(&p, SettingsState::Failed, 7).is_none());
}

#[test]
fn the_keyspace_is_one_statement() {
    let begin = |s: &str| {
        MigrationRun::begin(MigrationRunner::new(vec![]), &Some(s.to_string())).1
    };
    let task = begin("{x}; DROP KEYSPACE other");
    assert!(matches!(task, Task::Failed(e) if e.message() == "creating keyspace"));
    let task = begin("{x} /* y */");
    assert!(matches!(
        task,
        Task::Execute(s) if s == "CREATE KEYSPACE IF NOT EXISTS equicloud WITH REPLICATION = {x}  AND DURABLE_WRITES = true"
    ));
    let task = begin("{x}; -- y");
    assert!(matches!(
        task,
        Task::Execute(s) if s == "CREATE KEYSPACE IF NOT EXISTS equicloud WITH REPLICATION = {x}"
    ));
}

#[test]
fn a_second_run_changes_nothing() {
    let files = || vec![file("1.cql", "A;"), file("2.cql", "-- nothing"), file("3.cql", "C")];
    let mut notes: Vec<(String, String)> = Vec::new();
    let mut ends = Vec::new();
    for _ in 0..2 {
        let (mut run, mut task) = begun(files());
        let mut executed = 0;
        loop {
            let event = match task {
                Task::Execute(_) => {
                    executed += 1;
                    Event::Done
                }
                Task::LookUp(name) => {
                    Event::Found(notes.iter().find(|n| n.0 == name).map(|n| n.1.clone()))
                }
                Task::Record { name, checksum } => {
                    notes.push((name, checksum));
                    Event::Noted(FirstColumn::Boolean(true))
                }
                Task::Finished { applied, skipped } => {
                    ends.push((executed, applied, skipped, notes.len()));
                    break;
                }
                Task::Failed(e) => panic!("{}", e.message()),
            };
            task = run.run_migrations(event);
        }
    }
    assert_eq!(ends, [(2, 3, 0, 3), (0, 0, 3, 3)]);
}

#[test]
fn a_second_login_gives_the_same_secret() {
    let mut stored: Option<String> = None;
    let mut given = Vec::new();
    for offer in ["one", "two"] {
        let applied = stored.is_none();
        if applied {
            stored = Some(offer.to_string());
        }
        let secret = match rounds::get_or_create_user_auth_secret(offer.to_string(), applied) {
            Some(secret) => secret,
            None => rounds::existing_secret(stored.clone()).unwrap(),
        };
        given.push(secret);
    }
    assert_eq!(given, ["one", "one"]);
}
