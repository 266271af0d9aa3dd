//! Schema migrations: which files are run in which order, what is run of each, and
//! when a run stops.
use crate::database::FirstColumn;
use crate::digest;
use crate::text;
use vstd::prelude::*;
use vstd::utf8::encode_utf8;

verus! {

/// The table that says which migrations were applied.
pub const SCHEMA_MIGRATIONS_DDL: &'static str =
    "CREATE TABLE IF NOT EXISTS equicloud.schema_migrations (name TEXT PRIMARY KEY, checksum TEXT, applied_at BIGINT)";

pub const DEFAULT_KEYSPACE_REPLICATION: &'static str =
    "{'class': 'SimpleStrategy', 'replication_factor': 1}";

/// A migration file. There is no content where it is not text.
#[derive(Debug)]
pub struct MigrationFile {
    pub name: String,
    pub content: Option<String>,
}

/// What [`MigrationFile`] holds.
pub struct MigrationFileView {
    pub name: Seq<char>,
    pub content: Option<Seq<char>>,
}

impl View for MigrationFile {
    type V = MigrationFileView;

    open spec fn view(&self) -> MigrationFileView {
        MigrationFileView { name: self.name@, content: text::option_view(self.content) }
    }
}

/// Why a run of migrations stopped.
#[derive(Debug)]
pub enum MigrationError {
    Keyspace,
    Table,
    NotUtf8 { name: String },
    Changed { name: String, stored: String, current: String },
    MultipleStatements,
    Running { name: String },
    Raced { name: String, existing: String, ours: String },
    Vanished { name: String },
    /// The database did not answer; the text says why.
    Query(String),
}

/// What is said of a file that changed since it was applied.
pub open spec fn changed_text(name: Seq<char>, stored: Seq<char>, current: Seq<char>) -> Seq<char> {
    "Migration "@ + name + " was previously applied with checksum "@ + stored
        + " but the current file has checksum "@ + current
        + ". Migration files must not be modified after deployment; add a new migration instead."@
}

/// What is said of a migration that two runs applied in two versions.
pub open spec fn raced_text(name: Seq<char>, existing: Seq<char>, ours: Seq<char>) -> Seq<char> {
    "Migration "@ + name + " race detected: bookkeeping row has checksum "@ + existing
        + " but we tried to record "@ + ours
        + ". Likely two replicas running different code revisions."@
}

/// What is said of a note that is gone.
pub open spec fn vanished_text(name: Seq<char>) -> Seq<char> {
    "Migration "@ + name
        + " bookkeeping row vanished after a not-applied INSERT — DB consistency issue"@
}

/// What is said of an error.
pub open spec fn migration_error_text(e: MigrationError) -> Seq<char> {
    match e {
        MigrationError::Keyspace => "creating keyspace"@,
        MigrationError::Table => "creating schema_migrations table"@,
        MigrationError::NotUtf8 { name } => "migration "@ + name@ + " is not valid UTF-8"@,
        MigrationError::Changed { name, stored, current } => changed_text(
            name@,
            stored@,
            current@,
        ),
        MigrationError::MultipleStatements =>
            "Migration contains multiple statements; each .cql file must contain exactly one statement"@,
        MigrationError::Running { name } => "running migration "@ + name@,
        MigrationError::Raced { name, existing, ours } => raced_text(name@, existing@, ours@),
        MigrationError::Vanished { name } => vanished_text(name@),
        MigrationError::Query(s) => s@,
    }
}

impl MigrationError {
    /// What is said of an error.
    pub fn message(&self) -> (r: String)
        ensures
            r@ == migration_error_text(*self),
    {
        match self {
            MigrationError::Keyspace => "creating keyspace".to_owned(),
            MigrationError::Table => "creating schema_migrations table".to_owned(),
            MigrationError::NotUtf8 { name } => {
                let mut out = "migration ".to_owned();
                out.append(name.as_str());
                out.append(" is not valid UTF-8");
                out
            },
            MigrationError::Changed { name, stored, current } => {
                let mut out = "Migration ".to_owned();
                out.append(name.as_str());
                out.append(" was previously applied with checksum ");
                out.append(stored.as_str());
                out.append(" but the current file has checksum ");
                out.append(current.as_str());
                out.append(
                    ". Migration files must not be modified after deployment; add a new migration instead.",
                );
                out
            },
            MigrationError::MultipleStatements =>
                "Migration contains multiple statements; each .cql file must contain exactly one statement".to_owned(),
            MigrationError::Running { name } => text::concat("running migration ", name.as_str()),
            MigrationError::Raced { name, existing, ours } => {
                let mut out = "Migration ".to_owned();
                out.append(name.as_str());
                out.append(" race detected: bookkeeping row has checksum ");
                out.append(existing.as_str());
                out.append(" but we tried to record ");
                out.append(ours.as_str());
                out.append(". Likely two replicas running different code revisions.");
                out
            },
            MigrationError::Vanished { name } => {
                let mut out = "Migration ".to_owned();
                out.append(name.as_str());
                out.append(
                    " bookkeeping row vanished after a not-applied INSERT — DB consistency issue",
                );
                out
            },
            MigrationError::Query(s) => s.clone(),
        }
    }
}

/// Whether a file name has the extension `cql`.
pub open spec fn is_cql(name: Seq<char>) -> bool {
    name.len() > 4 && name.skip(name.len() - 4) == ".cql"@
}

fn has_cql_extension(name: &str) -> (r: bool)
    ensures
        r == is_cql(name@),
{
    let n: usize = name.unicode_len();
    if n <= 4 {
        return false;
    }
    let end = name.substring_char(n - 4, n);
    assert(end@ =~= name@.skip(n - 4));
    text::str_eq(end, ".cql")
}

/// Whether a name comes before another or is equal to it, character by character.
pub open spec fn name_le(a: Seq<char>, b: Seq<char>) -> bool
    decreases a.len(),
{
    if a.len() == 0 {
        true
    } else if b.len() == 0 {
        false
    } else if a[0] != b[0] {
        a[0] < b[0]
    } else {
        name_le(a.skip(1), b.skip(1))
    }
}

proof fn lemma_name_le_total(a: Seq<char>, b: Seq<char>)
    ensures
        name_le(a, b) || name_le(b, a),
    decreases a.len(),
{
    if a.len() > 0 && b.len() > 0 && a[0] == b[0] {
        lemma_name_le_total(a.skip(1), b.skip(1));
    }
}

proof fn lemma_name_le_transitive(a: Seq<char>, b: Seq<char>, c: Seq<char>)
    requires
        name_le(a, b),
        name_le(b, c),
    ensures
        name_le(a, c),
    decreases a.len(),
{
    if a.len() > 0 && b.len() > 0 && c.len() > 0 && a[0] == b[0] && b[0] == c[0] {
        lemma_name_le_transitive(a.skip(1), b.skip(1), c.skip(1));
    }
}

fn comes_first(a: &str, b: &str) -> (r: bool)
    ensures
        r == name_le(a@, b@),
{
    let x = text::chars_of(a);
    let y = text::chars_of(b);
    let mut i: usize = 0;
    assert(a@.skip(0) =~= a@ && b@.skip(0) =~= b@);
    while i < x.len()
        invariant
            x@ == a@,
            y@ == b@,
            i <= x@.len(),
            i <= y@.len(),
            name_le(a@, b@) == name_le(a@.skip(i as int), b@.skip(i as int)),
        decreases x@.len() - i,
    {
        if i == y.len() {
            return false;
        }
        if x[i] != y[i] {
            return x[i] < y[i];
        }
        assert(a@.skip(i as int).skip(1) =~= a@.skip(i + 1));
        assert(b@.skip(i as int).skip(1) =~= b@.skip(i + 1));
        i = i + 1;
    }
    true
}

/// The views of files.
pub open spec fn files_view(files: Seq<MigrationFile>) -> Seq<MigrationFileView> {
    files.map_values(|f: MigrationFile| f@)
}

/// Whether files stand in the order of their names.
pub open spec fn in_order(files: Seq<MigrationFileView>) -> bool {
    forall|i: int, j: int|
        0 <= i < j < files.len() ==> name_le((#[trigger] files[i]).name, (#[trigger] files[j]).name)
}

/// Puts a file into its place among files that are in order.
fn insert_in_order(files: &mut Vec<MigrationFile>, file: MigrationFile)
    requires
        in_order(files_view(old(files)@)),
    ensures
        in_order(files_view(final(files)@)),
        files_view(final(files)@).to_multiset() == files_view(old(files)@).to_multiset().insert(
            file@,
        ),
{
    let ghost before = files_view(files@);
    let mut at: usize = files.len();
    while at > 0 && !comes_first(files[at - 1].name.as_str(), file.name.as_str())
        invariant
            at <= files@.len(),
            before == files_view(files@),
            files@ == old(files)@,
            forall|j: int| at <= j < before.len() ==> !name_le(#[trigger] before[j].name, file.name@),
        decreases at,
    {
        assert(before[at - 1].name == files@[at - 1].name@);
        at = at - 1;
    }
    let ghost shown = file@;
    files.insert(at, file);
    proof {
        let after = files_view(files@);
        assert(after =~= before.insert(at as int, shown));
        vstd::seq_lib::to_multiset_insert(before, at as int, shown);
        assert forall|i: int, j: int| 0 <= i < j < after.len() implies name_le(
            (#[trigger] after[i]).name,
            (#[trigger] after[j]).name,
        ) by {
            let at = at as int;
            if j < at {
                assert(after[i] == before[i] && after[j] == before[j]);
            } else if i > at {
                assert(after[i] == before[i - 1] && after[j] == before[j - 1]);
            } else if i == at {
                assert(after[j] == before[j - 1]);
                lemma_name_le_total(shown.name, before[j - 1].name);
            } else {
                assert(after[i] == before[i]);
                assert(name_le(before[at - 1].name, shown.name));
                if i < at - 1 {
                    lemma_name_le_transitive(before[i].name, before[at - 1].name, shown.name);
                }
                if j > at {
                    assert(after[j] == before[j - 1]);
                }
            }
        }
    }
}

/// Whether `sorted` are the migrations among some files, in the order of their names.
pub open spec fn takes(files: Seq<MigrationFileView>, sorted: Seq<MigrationFileView>) -> bool {
    &&& in_order(sorted)
    &&& sorted.to_multiset() == files.filter(|f: MigrationFileView| is_cql(f.name)).to_multiset()
}

/// The migrations of a run, in the order in which they are run.
#[derive(Debug)]
pub struct MigrationRunner {
    pub files: Vec<MigrationFile>,
}

impl MigrationRunner {
    /// Takes the `cql` files and puts them in the order of their names.
    pub fn new(files: Vec<MigrationFile>) -> (r: Self)
        ensures
            in_order(files_view(r.files@)),
            files_view(r.files@).to_multiset() == files_view(files@).filter(
                |f: MigrationFileView| is_cql(f.name),
            ).to_multiset(),
            takes(files_view(files@), files_view(r.files@)),
    {
        let ghost all = files_view(files@);
        let ghost p = |f: MigrationFileView| is_cql(f.name);
        let mut out: Vec<MigrationFile> = Vec::new();
        proof {
            reveal(Seq::filter);
            assert(all.take(0) =~= Seq::<MigrationFileView>::empty());
            assert(files_view(out@) =~= all.take(0).filter(p));
        }
        for file in it: files
            invariant
                it.seq() == files@,
                all == files_view(files@),
                p == (|f: MigrationFileView| is_cql(f.name)),
                in_order(files_view(out@)),
                files_view(out@).to_multiset() == all.take(it.index() as int).filter(
                    p,
                ).to_multiset(),
        {
            proof {
                let i = it.index() as int;
                assert(all[i] == file@);
                crate::sync::lemma_filter_step(all, i, p);
                vstd::seq_lib::to_multiset_build(all.take(i).filter(p), file@);
            }
            if has_cql_extension(file.name.as_str()) {
                insert_in_order(&mut out, file);
            }
        }
        assert(all.take(all.len() as int) =~= all);
        MigrationRunner { files: out }
    }
}

/// The statement that creates the keyspace.
pub open spec fn keyspace_text(replication: Option<Seq<char>>) -> Seq<char> {
    let chosen = if replication is Some && text::trimmed(replication->0).len() > 0 {
        replication->0
    } else {
        DEFAULT_KEYSPACE_REPLICATION@
    };
    "CREATE KEYSPACE IF NOT EXISTS equicloud WITH REPLICATION = "@ + chosen
        + " AND DURABLE_WRITES = true"@
}

/// The statement that creates the keyspace, with the replication that was asked for
/// or the default where nothing was.
pub fn create_keyspace_sql(replication: &Option<String>) -> (r: String)
    ensures
        r@ == keyspace_text(text::option_view(*replication)),
{
    let mut out = "CREATE KEYSPACE IF NOT EXISTS equicloud WITH REPLICATION = ".to_owned();
    match replication {
        Some(s) => if text::trim(s.as_str()).unicode_len() > 0 {
            out.append(s.as_str());
        } else {
            out.append(DEFAULT_KEYSPACE_REPLICATION);
        },
        None => out.append(DEFAULT_KEYSPACE_REPLICATION),
    }
    out.append(" AND DURABLE_WRITES = true");
    out
}

/// How long the rest of a block comment is, up to and with the mark that closes it.
pub open spec fn close_of(s: Seq<char>) -> Option<int>
    decreases s.len(),
{
    if s.len() < 2 {
        None
    } else if s[0] == '*' && s[1] == '/' {
        Some(2)
    } else {
        match close_of(s.skip(1)) {
            Some(n) => Some(n + 1),
            None => None,
        }
    }
}

/// A block comment that ends, ends within the text.
pub proof fn lemma_close_of(s: Seq<char>)
    ensures
        close_of(s) matches Some(n) ==> 2 <= n <= s.len(),
    decreases s.len(),
{
    if s.len() >= 2 && !(s[0] == '*' && s[1] == '/') {
        lemma_close_of(s.skip(1));
    }
}

/// Whether a block comment begins here.
pub open spec fn opens_block(s: Seq<char>) -> bool {
    s.len() >= 2 && s[0] == '/' && s[1] == '*'
}

/// `s` without its block comments, or `None` if one of them does not end.
pub open spec fn without_blocks(s: Seq<char>) -> Option<Seq<char>>
    decreases s.len(),
{
    if s.len() == 0 {
        Some(seq![])
    } else if opens_block(s) {
        match close_of(s.skip(2)) {
            Some(n) => {
                proof {
                    lemma_close_of(s.skip(2));
                }
                without_blocks(s.skip(2 + n))
            },
            None => None,
        }
    } else {
        match without_blocks(s.skip(1)) {
            Some(rest) => Some(seq![s[0]] + rest),
            None => None,
        }
    }
}

/// `s` without its block comments; all of `s` if one of them does not end.
pub open spec fn blocks_stripped(s: Seq<char>) -> Seq<char> {
    match without_blocks(s) {
        Some(r) => r,
        None => s,
    }
}

/// How long the rest of a block comment is.
fn find_close(x: &Vec<char>, from: usize) -> (r: Option<usize>)
    requires
        from <= x@.len(),
    ensures
        r is Some <==> close_of(x@.skip(from as int)) is Some,
        r matches Some(n) ==> Some(n as int) == close_of(x@.skip(from as int)) && n <= x@.len()
            - from,
{
    let mut i: usize = from;
    proof {
        lemma_close_of(x@.skip(from as int));
    }
    while i < x.len()
        invariant
            from <= i <= x@.len(),
            close_of(x@.skip(from as int)) == (match close_of(x@.skip(i as int)) {
                Some(n) => Some(n + i - from),
                None => None,
            }),
            close_of(x@.skip(from as int)) matches Some(n) ==> n <= x@.len() - from,
        decreases x@.len() - i,
    {
        if i == x.len() - 1 {
            return None;
        }
        if x[i] == '*' && x[i + 1] == '/' {
            return Some(i - from + 2);
        }
        assert(x@.skip(i as int).skip(1) =~= x@.skip(i + 1));
        i = i + 1;
    }
    None
}

/// Takes out `/* … */` comments. Where one does not end, nothing is taken out, so
/// that the database can say what is wrong.
pub fn strip_block_comments(content: &str) -> (r: String)
    ensures
        r@ == blocks_stripped(content@),
{
    let x = text::chars_of(content);
    let mut out = String::new();
    let mut i: usize = 0;
    proof {
        assert(x@.skip(0) =~= x@);
        if without_blocks(x@) is Some {
            assert(out@ + without_blocks(x@)->0 =~= without_blocks(x@)->0);
        }
    }
    while i < x.len()
        invariant
            x@ == content@,
            i <= x@.len(),
            without_blocks(x@) == (match without_blocks(x@.skip(i as int)) {
                Some(rest) => Some(out@ + rest),
                None => None,
            }),
        decreases x@.len() - i,
    {
        let ghost here = x@.skip(i as int);
        if i + 1 < x.len() && x[i] == '/' && x[i + 1] == '*' {
            assert(here.skip(2) =~= x@.skip(i + 2));
            match find_close(&x, i + 2) {
                Some(n) => {
                    assert(here.skip(2 + n) =~= x@.skip(i + 2 + n));
                    i = i + 2 + n;
                },
                None => {
                    return content.to_owned();
                },
            }
        } else {
            let ghost before = out@;
            out.push(x[i]);
            proof {
                assert(!opens_block(here));
                assert(here.skip(1) =~= x@.skip(i + 1));
                if without_blocks(here.skip(1)) is Some {
                    let rest = without_blocks(here.skip(1))->0;
                    assert(before + (seq![here[0]] + rest) =~= out@ + rest);
                }
            }
            i = i + 1;
        }
    }
    assert(x@.skip(i as int) =~= Seq::<char>::empty());
    assert(out@ + Seq::<char>::empty() =~= out@);
    out
}

/// A line up to its first `--`.
pub open spec fn before_dashes(line: Seq<char>) -> Seq<char>
    decreases line.len(),
{
    if line.len() < 2 {
        line
    } else if line[0] == '-' && line[1] == '-' {
        seq![]
    } else {
        seq![line[0]] + before_dashes(line.skip(1))
    }
}

fn cut_dashes<'a>(line: &'a str) -> (r: &'a str)
    ensures
        r@ == before_dashes(line@),
{
    let x = text::chars_of(line);
    let n: usize = line.unicode_len();
    let mut i: usize = 0;
    proof {
        assert(line@.skip(0) =~= line@);
        assert(line@.take(0) + before_dashes(line@) =~= before_dashes(line@));
    }
    while i < n
        invariant
            x@ == line@,
            n == line@.len(),
            i <= n,
            before_dashes(line@) == line@.take(i as int) + before_dashes(line@.skip(i as int)),
        decreases n - i,
    {
        let ghost here = line@.skip(i as int);
        if i + 1 < n && x[i] == '-' && x[i + 1] == '-' {
            let r = line.substring_char(0, i);
            assert(r@ =~= line@.take(i as int) + before_dashes(here));
            return r;
        }
        if i + 1 == n {
            assert(line@.take(i as int) + here =~= line@);
            return line;
        }
        assert(here.skip(1) =~= line@.skip(i + 1));
        assert(line@.take(i as int) + (seq![here[0]] + before_dashes(here.skip(1))) =~= line@.take(
            i + 1,
        ) + before_dashes(line@.skip(i + 1)));
        i = i + 1;
    }
    assert(line@.take(i as int) + line@.skip(i as int) =~= line@);
    line
}

/// Lines put together, with a line feed between each two.
pub open spec fn joined(parts: Seq<Seq<char>>) -> Seq<char>
    decreases parts.len(),
{
    if parts.len() == 0 {
        seq![]
    } else if parts.len() == 1 {
        parts[0]
    } else {
        joined(parts.drop_last()).push('\n') + parts.last()
    }
}

/// `s` without its line comments.
pub open spec fn comments_stripped(s: Seq<char>) -> Seq<char> {
    joined(text::lines(s).map_values(|line: Seq<char>| before_dashes(line)))
}

/// Takes out `--` comments, each of which runs to the end of its line.
pub fn strip_comments(content: &str) -> (r: String)
    ensures
        r@ == comments_stripped(content@),
{
    let lines = text::lines_of(content);
    let ghost cut = text::lines(content@).map_values(|line: Seq<char>| before_dashes(line));
    let mut out = String::new();
    let mut i: usize = 0;
    assert(cut.take(0) =~= Seq::<Seq<char>>::empty());
    while i < lines.len()
        invariant
            text::views(lines@) == text::lines(content@),
            cut == text::lines(content@).map_values(|line: Seq<char>| before_dashes(line)),
            i <= lines@.len(),
            out@ == joined(cut.take(i as int)),
        decreases lines@.len() - i,
    {
        let line = cut_dashes(lines[i]);
        proof {
            assert(text::views(lines@)[i as int] == lines@[i as int]@);
            assert(cut[i as int] == line@);
            assert(cut.take(i + 1).drop_last() =~= cut.take(i as int));
        }
        if i > 0 {
            out.push('\n');
        }
        let ghost before = out@;
        out.append(line);
        if i == 0 {
            assert(before + line@ =~= line@);
        }
        i = i + 1;
    }
    assert(text::views(lines@).len() == lines@.len());
    assert(cut.take(i as int) =~= cut);
    out
}

/// The statement that a file holds: what is left without comments, without white
/// space around it and without one semicolon at its end.
pub open spec fn statement_text(content: Seq<char>) -> Seq<char> {
    let cleaned = text::trimmed(comments_stripped(blocks_stripped(content)));
    if cleaned.len() > 0 && cleaned.last() == ';' {
        text::trimmed(cleaned.drop_last())
    } else {
        text::trimmed(cleaned)
    }
}

/// The statement to run for a file, nothing where no statement is left, or an error
/// where there is more than one.
pub fn execute_cql(content: &str) -> (r: Result<Option<String>, MigrationError>)
    ensures
        ({
            let statement = statement_text(content@);
            if statement.len() == 0 {
                r is Ok && r->Ok_0 is None
            } else if statement.contains(';') {
                r == Err::<Option<String>, MigrationError>(MigrationError::MultipleStatements)
            } else {
                r is Ok && text::option_view(r->Ok_0) == Some(statement)
            }
        }),
{
    let no_blocks = strip_block_comments(content);
    let cleaned = strip_comments(no_blocks.as_str());
    let trimmed = text::trim(cleaned.as_str());
    let n: usize = trimmed.unicode_len();
    let body = if n > 0 && trimmed.get_char(n - 1) == ';' {
        let front = trimmed.substring_char(0, n - 1);
        assert(front@ =~= trimmed@.drop_last());
        front
    } else {
        trimmed
    };
    let statement = text::trim(body);
    if statement.unicode_len() == 0 {
        return Ok(None);
    }
    if text::contains_char(statement, ';') {
        return Err(MigrationError::MultipleStatements);
    }
    Ok(Some(statement.to_owned()))
}

/// The checksum of a file.
pub open spec fn file_checksum(content: Seq<char>) -> Seq<char> {
    digest::hex_text(digest::sha256(encode_utf8(content)))
}

/// The checksum of a file, given its digest.
pub fn checksum_of_digest(sum: &[u8]) -> (r: String)
    ensures
        r@ == digest::hex_text(sum@),
{
    digest::hex_of(sum)
}

/// The checksum of a file.
pub fn compute_checksum(content: &str) -> (r: String)
    ensures
        r@ == file_checksum(content@),
{
    let sum = digest::sha256_of(content.as_bytes());
    checksum_of_digest(sum.as_slice())
}

/// A migration that can be run.
#[derive(Debug)]
pub struct Migration {
    pub name: String,
    pub content: String,
    pub checksum: String,
}

/// Whether a migration is to be run, once it is known with which checksum it was
/// applied before, if it was. A file that changed since then stops the run.
pub fn lookup_applied(migration: &Migration, stored: &Option<String>) -> (r: Result<
    bool,
    MigrationError,
>)
    ensures
        match text::option_view(*stored) {
            None => r == Ok::<bool, MigrationError>(true),
            Some(checksum) => if checksum == migration.checksum@ {
                r == Ok::<bool, MigrationError>(false)
            } else {
                &&& r is Err
                &&& r->Err_0 is Changed
                &&& r->Err_0->Changed_name@ == migration.name@
                &&& r->Err_0->Changed_stored@ == checksum
                &&& r->Err_0->Changed_current@ == migration.checksum@
            },
        },
{
    match stored {
        None => Ok(true),
        Some(checksum) => if text::str_eq(checksum.as_str(), migration.checksum.as_str()) {
            Ok(false)
        } else {
            Err(
                MigrationError::Changed {
                    name: migration.name.clone(),
                    stored: checksum.clone(),
                    current: migration.checksum.clone(),
                },
            )
        },
    }
}

/// Whether the note that a migration was applied is in place. If it is not, another
/// run was faster, and its note is to be read.
pub fn record_applied(column: FirstColumn) -> (r: bool)
    ensures
        r == (column == FirstColumn::Boolean(true)),
{
    match column {
        FirstColumn::Boolean(b) => b,
        _ => false,
    }
}

/// Whether the note of another run agrees with ours.
pub fn verify_recorded(migration: &Migration, existing: &Option<String>) -> (r: Result<
    (),
    MigrationError,
>)
    ensures
        match text::option_view(*existing) {
            None => r is Err && r->Err_0 is Vanished && r->Err_0->Vanished_name@ == migration.name@,
            Some(checksum) => if checksum == migration.checksum@ {
                r is Ok
            } else {
                &&& r is Err
                &&& r->Err_0 is Raced
                &&& r->Err_0->Raced_name@ == migration.name@
                &&& r->Err_0->Raced_existing@ == checksum
                &&& r->Err_0->Raced_ours@ == migration.checksum@
            },
        },
{
    match existing {
        None => Err(MigrationError::Vanished { name: migration.name.clone() }),
        Some(checksum) => if text::str_eq(checksum.as_str(), migration.checksum.as_str()) {
            Ok(())
        } else {
            Err(
                MigrationError::Raced {
                    name: migration.name.clone(),
                    existing: checksum.clone(),
                    ours: migration.checksum.clone(),
                },
            )
        },
    }
}

/// Text without the mark that opens a block comment is kept as it is.
pub proof fn law_text_without_block_comments_is_kept(s: Seq<char>)
    requires
        forall|i: int| 0 <= i <= s.len() ==> !opens_block(#[trigger] s.skip(i)),
    ensures
        blocks_stripped(s) == s,
{
    lemma_no_blocks(s);
}

proof fn lemma_no_blocks(s: Seq<char>)
    requires
        forall|i: int| 0 <= i <= s.len() ==> !opens_block(#[trigger] s.skip(i)),
    ensures
        without_blocks(s) == Some(s),
    decreases s.len(),
{
    if s.len() > 0 {
        assert(s.skip(0) =~= s);
        let t = s.skip(1);
        assert forall|i: int| 0 <= i <= t.len() implies !opens_block(#[trigger] t.skip(i)) by {
            assert(t.skip(i) =~= s.skip(i + 1));
        }
        lemma_no_blocks(t);
        assert(seq![s[0]] + t =~= s);
    } else {
        assert(s =~= seq![]);
    }
}

/// What is kept of a line holds no line comment.
pub proof fn law_cut_line_holds_no_comment(line: Seq<char>)
    ensures
        !text::has_double(before_dashes(line), '-'),
        before_dashes(line).is_prefix_of(line),
    decreases line.len(),
{
    let r = before_dashes(line);
    if line.len() >= 2 && !(line[0] == '-' && line[1] == '-') {
        let t = line.skip(1);
        law_cut_line_holds_no_comment(t);
        let rest = before_dashes(t);
        assert(r =~= seq![line[0]] + rest);
        assert(rest.len() > 0 ==> rest[0] == t.subrange(0, rest.len() as int)[0]);
        assert forall|i: int| 0 <= i < r.len() - 1 implies !(r[i] == '-' && #[trigger] r[i + 1]
            == '-') by {
            if i == 0 {
                assert(r[1] == rest[0]);
                assert(rest[0] == line[1]);
            } else {
                assert(r[i] == rest[i - 1] && r[i + 1] == rest[(i - 1) + 1]);
            }
        }
        assert forall|i: int| 0 <= i < r.len() implies r[i] == line.subrange(
            0,
            r.len() as int,
        )[i] by {
            if i > 0 {
                assert(rest[i - 1] == t.subrange(0, rest.len() as int)[i - 1]);
            }
        }
        assert(r =~= line.subrange(0, r.len() as int));
    } else {
        assert(r =~= line.subrange(0, r.len() as int));
    }
}

/// A file is a migration just if its name is some text and then `.cql`.
pub proof fn law_migrations_end_in_cql(name: Seq<char>)
    ensures
        is_cql(name) <==> exists|stem: Seq<char>|
            stem.len() > 0 && name == #[trigger] (stem + ".cql"@),
{
    let end = ".cql"@;
    reveal_strlit(".cql");
    if is_cql(name) {
        let stem = name.take(name.len() - 4);
        assert(name =~= stem + end);
    }
    if exists|stem: Seq<char>| stem.len() > 0 && name == #[trigger] (stem + end) {
        let stem = choose|stem: Seq<char>| stem.len() > 0 && name == #[trigger] (stem + end);
        assert(name.skip(name.len() - 4) =~= end);
    }
}

/// Names are in the order of the first characters in which they differ; a name comes
/// before every longer one that begins with it.
pub proof fn law_names_are_ordered_by_their_first_difference(
    same: Seq<char>,
    c: char,
    x: Seq<char>,
    d: char,
    y: Seq<char>,
)
    ensures
        c != d ==> (name_le(same + seq![c] + x, same + seq![d] + y) <==> c < d),
        name_le(same, same + seq![d] + y),
        !name_le(same + seq![c] + x, same),
        name_le(same, same),
    decreases same.len(),
{
    let a = same + seq![c] + x;
    let b = same + seq![d] + y;
    if same.len() > 0 {
        let rest = same.skip(1);
        law_names_are_ordered_by_their_first_difference(rest, c, x, d, y);
        assert(a.skip(1) =~= rest + seq![c] + x);
        assert(b.skip(1) =~= rest + seq![d] + y);
        assert(a[0] == same[0] && b[0] == same[0]);
    } else {
        assert(a[0] == c && b[0] == d);
    }
}

/// Two names that come before each other are the same, so that the order of the files is
/// fixed by their names.
pub proof fn law_only_equal_names_come_before_each_other(a: Seq<char>, b: Seq<char>)
    requires
        name_le(a, b),
        name_le(b, a),
    ensures
        a == b,
    decreases a.len(),
{
    if a.len() > 0 && b.len() > 0 {
        law_only_equal_names_come_before_each_other(a.skip(1), b.skip(1));
        assert(a =~= seq![a[0]] + a.skip(1));
        assert(b =~= seq![b[0]] + b.skip(1));
    } else {
        assert(a =~= b);
    }
}

/// The replication that is asked for stands in the statement that creates the keyspace as
/// it was given; a blank one counts as none, and one node holds everything then.
pub proof fn law_keyspace_has_the_replication_asked_for(replication: Seq<char>)
    ensures
        text::trimmed(replication).len() > 0 ==> keyspace_text(Some(replication))
            == "CREATE KEYSPACE IF NOT EXISTS equicloud WITH REPLICATION = "@ + replication
            + " AND DURABLE_WRITES = true"@,
        text::trimmed(replication).len() == 0 ==> keyspace_text(Some(replication)) == keyspace_text(
            None,
        ),
        keyspace_text(None) == "CREATE KEYSPACE IF NOT EXISTS equicloud WITH REPLICATION = "@
            + "{'class': 'SimpleStrategy', 'replication_factor': 1}"@
            + " AND DURABLE_WRITES = true"@,
{
}

/// Whether somewhere in `s` the character `d` follows the character `c`.
pub open spec fn holds_pair(s: Seq<char>, c: char, d: char) -> bool {
    exists|i: int| 0 <= i < s.len() - 1 && #[trigger] s[i] == c && s[i + 1] == d
}

proof fn lemma_pair_within(s: Seq<char>, a: int, b: int, c: char, d: char)
    requires
        0 <= a <= b <= s.len(),
        !holds_pair(s, c, d),
    ensures
        !holds_pair(s.subrange(a, b), c, d),
{
    let t = s.subrange(a, b);
    if holds_pair(t, c, d) {
        let i = choose|i: int| 0 <= i < t.len() - 1 && #[trigger] t[i] == c && t[i + 1] == d;
        assert(s[a + i] == c && s[a + i + 1] == d);
    }
}

/// A line is cut at its first two dashes, and a line without two dashes is kept whole.
pub proof fn law_line_is_cut_at_the_first_dashes(head: Seq<char>, tail: Seq<char>)
    requires
        !holds_pair(head, '-', '-'),
    ensures
        before_dashes(head) == head,
        head.len() == 0 || head.last() != '-' ==> before_dashes(head + seq!['-', '-'] + tail)
            == head,
    decreases head.len(),
{
    let line = head + seq!['-', '-'] + tail;
    if head.len() == 0 {
        assert(line[0] == '-' && line[1] == '-');
        assert(before_dashes(line) =~= head);
    } else {
        let rest = head.skip(1);
        assert(rest =~= head.subrange(1, head.len() as int));
        lemma_pair_within(head, 1, head.len() as int, '-', '-');
        law_line_is_cut_at_the_first_dashes(rest, tail);
        assert(seq![head[0]] + rest =~= head);
        if head.len() >= 2 {
            if head[0] == '-' && head[1] == '-' {
                assert(head[0] == '-' && head[0int + 1] == '-');
            }
        }
        if head.last() != '-' {
            assert(line.skip(1) =~= rest + seq!['-', '-'] + tail);
            assert(line[0] == head[0]);
            if head.len() >= 2 {
                assert(line[1] == head[1]);
                assert(rest.last() == head.last());
            }
        }
    }
}

proof fn lemma_close_behind(body: Seq<char>, rest: Seq<char>)
    requires
        !holds_pair(body, '*', '/'),
    ensures
        close_of(body + seq!['*', '/'] + rest) == Some(body.len() as int + 2),
        close_of(body) is None,
    decreases body.len(),
{
    let s = body + seq!['*', '/'] + rest;
    if body.len() == 0 {
        assert(s[0] == '*' && s[1] == '/');
    } else {
        let inner = body.skip(1);
        assert(inner =~= body.subrange(1, body.len() as int));
        lemma_pair_within(body, 1, body.len() as int, '*', '/');
        lemma_close_behind(inner, rest);
        assert(s.skip(1) =~= inner + seq!['*', '/'] + rest);
        assert(s[0] == body[0]);
        if body.len() >= 2 {
            assert(s[1] == body[1]);
            if body[0] == '*' && body[1] == '/' {
                assert(body[0] == '*' && body[0int + 1] == '/');
            }
        } else {
            assert(s[1] == '*');
        }
    }
}

proof fn lemma_before_block(before: Seq<char>, tail: Seq<char>)
    requires
        !holds_pair(before, '/', '*'),
        tail.len() >= 2 && tail[0] == '/' && tail[1] == '*',
    ensures
        without_blocks(before + tail) == (match without_blocks(tail) {
            Some(r) => Some(before + r),
            None => None,
        }),
    decreases before.len(),
{
    let s = before + tail;
    if before.len() == 0 {
        assert(s =~= tail);
        if without_blocks(tail) is Some {
            assert(before + without_blocks(tail)->0 =~= without_blocks(tail)->0);
        }
    } else {
        let rest = before.skip(1);
        assert(rest =~= before.subrange(1, before.len() as int));
        lemma_pair_within(before, 1, before.len() as int, '/', '*');
        lemma_before_block(rest, tail);
        assert(s.skip(1) =~= rest + tail);
        assert(s[0] == before[0]);
        if before.len() >= 2 {
            assert(s[1] == before[1]);
            if before[0] == '/' && before[1] == '*' {
                assert(before[0] == '/' && before[0int + 1] == '*');
            }
        } else {
            assert(s[1] == '/');
        }
        assert(!opens_block(s));
        if without_blocks(tail) is Some {
            let r = without_blocks(tail)->0;
            assert(seq![s[0]] + (rest + r) =~= before + r);
        }
    }
}

/// A block comment is taken out with both of its marks, and what stands before it and
/// behind it is kept, with the comments behind it taken out too. Text in which a block
/// comment does not end is kept whole.
pub proof fn law_block_comment_is_taken_out(before: Seq<char>, body: Seq<char>, behind: Seq<char>)
    requires
        !holds_pair(before, '/', '*'),
        !holds_pair(body, '*', '/'),
    ensures
        without_blocks(before + seq!['/', '*'] + body + seq!['*', '/'] + behind) == (
        match without_blocks(behind) {
            Some(r) => Some(before + r),
            None => None,
        }),
        blocks_stripped(before + seq!['/', '*'] + body) == before + seq!['/', '*'] + body,
        without_blocks(before) == Some(before),
        blocks_stripped(before) == before,
{
    let tail = seq!['/', '*'] + body + seq!['*', '/'] + behind;
    lemma_before_block(before, tail);
    assert(before + tail =~= before + seq!['/', '*'] + body + seq!['*', '/'] + behind);
    lemma_close_behind(body, behind);
    assert(tail.skip(2) =~= body + seq!['*', '/'] + behind);
    assert(tail.skip(body.len() as int + 4) =~= behind);
    assert(opens_block(tail));
    let open = seq!['/', '*'] + body;
    lemma_before_block(before, open);
    assert(before + open =~= before + seq!['/', '*'] + body);
    assert(open.skip(2) =~= body);
    assert(opens_block(open));
    assert forall|i: int| 0 <= i <= before.len() implies !opens_block(#[trigger] before.skip(i)) by {
        let t = before.skip(i);
        if opens_block(t) {
            assert(before[i] == t[0] && before[i + 1] == t[1]);
        }
    }
    lemma_no_blocks(before);
}

proof fn lemma_joined_front(x: Seq<char>, ys: Seq<Seq<char>>)
    requires
        ys.len() > 0,
    ensures
        joined(seq![x] + ys) == x + seq!['\n'] + joined(ys),
    decreases ys.len(),
{
    let all = seq![x] + ys;
    assert(all.drop_last() =~= seq![x] + ys.drop_last());
    assert(all.last() == ys.last());
    if ys.len() == 1 {
        assert(all.drop_last() =~= seq![x]);
        assert(joined(seq![x]) == x);
        assert(joined(all) =~= x + seq!['\n'] + joined(ys));
    } else {
        lemma_joined_front(x, ys.drop_last());
        assert(joined(all) =~= x + seq!['\n'] + joined(ys));
    }
}

proof fn lemma_some_line(s: Seq<char>)
    requires
        s.len() > 0,
    ensures
        text::lines(s).len() > 0,
{
    text::lemma_position(s, '\n');
    let at = text::position(s, '\n');
    let line = s.take(at);
    if at < s.len() {
        let rest = s.skip(at + 1);
        assert(line.push('\n') + rest =~= s);
        text::law_lines_end_at_line_feeds(line, rest);
    } else {
        assert(line =~= s);
        text::law_lines_end_at_line_feeds(s, seq![]);
    }
}

/// Line comments are taken out line by line: of each line, without a carriage return at
/// its end, what stands before two dashes is kept, and the lines stay apart.
pub proof fn law_comments_are_cut_line_by_line(line: Seq<char>, rest: Seq<char>)
    requires
        !line.contains('\n'),
    ensures
        ({
            let kept = if line.len() > 0 && line.last() == '\r' {
                before_dashes(line.drop_last())
            } else {
                before_dashes(line)
            };
            comments_stripped(line.push('\n') + rest) == (if rest.len() == 0 {
                kept
            } else {
                kept + seq!['\n'] + comments_stripped(rest)
            })
        }),
        comments_stripped(line) == before_dashes(line),
{
    let f = |line: Seq<char>| before_dashes(line);
    text::law_lines_end_at_line_feeds(line, rest);
    let first = if line.len() > 0 && line.last() == '\r' {
        line.drop_last()
    } else {
        line
    };
    let all = text::lines(line.push('\n') + rest);
    let more = text::lines(rest).map_values(f);
    assert(all.map_values(f) =~= seq![before_dashes(first)] + more);
    if rest.len() == 0 {
        text::law_lines_end_at_line_feeds(rest, seq![]);
        assert(more =~= Seq::<Seq<char>>::empty());
        assert(all.map_values(f) =~= seq![before_dashes(first)]);
    } else {
        lemma_some_line(rest);
        lemma_joined_front(before_dashes(first), more);
    }
    if line.len() == 0 {
        assert(text::lines(line).map_values(f) =~= Seq::<Seq<char>>::empty());
        assert(before_dashes(line) =~= Seq::<char>::empty());
    } else {
        assert(text::lines(line).map_values(f) =~= seq![before_dashes(line)]);
    }
}

proof fn lemma_nothing_to_cut(s: Seq<char>)
    requires
        !holds_pair(s, '-', '-'),
        !s.contains('\r'),
    ensures
        comments_stripped(s) == (if s.len() > 0 && s.last() == '\n' {
            s.drop_last()
        } else {
            s
        }),
    decreases s.len(),
{
    text::lemma_position(s, '\n');
    let at = text::position(s, '\n');
    let line = s.take(at);
    assert(line =~= s.subrange(0, at));
    lemma_pair_within(s, 0, at, '-', '-');
    law_line_is_cut_at_the_first_dashes(line, seq![]);
    if at < s.len() {
        let rest = s.skip(at + 1);
        assert(rest =~= s.subrange(at + 1, s.len() as int));
        lemma_pair_within(s, at + 1, s.len() as int, '-', '-');
        assert forall|c: int| 0 <= c < rest.len() implies rest[c] != '\r' by {
            assert(s[at + 1 + c] != '\r');
        }
        lemma_nothing_to_cut(rest);
        assert(line.push('\n') + rest =~= s);
        if line.len() > 0 {
            assert(line.last() == s[at - 1]);
        }
        law_comments_are_cut_line_by_line(line, rest);
        if rest.len() == 0 {
            assert(s.drop_last() =~= line);
        } else if rest.last() == '\n' {
            assert(line + seq!['\n'] + rest.drop_last() =~= s.drop_last());
        } else {
            assert(line + seq!['\n'] + rest =~= s);
        }
    } else {
        assert(line =~= s);
        law_comments_are_cut_line_by_line(s, seq![]);
        if s.len() > 0 && s.last() == '\n' {
            assert(s.contains(s[s.len() - 1]));
        }
    }
}

/// A file without comments and carriage returns holds the statement that stands in it
/// between white space, over as many lines as it may have, with or without a semicolon
/// behind it.
pub proof fn law_file_without_comments_holds_its_text(
    left: Seq<char>,
    statement: Seq<char>,
    gap: Seq<char>,
    right: Seq<char>,
)
    requires
        statement.len() > 0,
        !text::whitespace(statement[0]) && !text::whitespace(statement.last()),
        statement.last() != ';',
        forall|i: int| 0 <= i < left.len() ==> text::whitespace(#[trigger] left[i]),
        forall|i: int| 0 <= i < gap.len() ==> text::whitespace(#[trigger] gap[i]),
        forall|i: int| 0 <= i < right.len() ==> text::whitespace(#[trigger] right[i]),
        !holds_pair(left + statement + gap + seq![';'] + right, '-', '-'),
        !holds_pair(left + statement + gap + seq![';'] + right, '/', '*'),
        !(left + statement + gap + seq![';'] + right).contains('\r'),
    ensures
        statement_text(left + statement + gap + seq![';'] + right) == statement,
        !holds_pair(left + statement + right, '-', '-') && !holds_pair(
            left + statement + right,
            '/',
            '*',
        ) ==> statement_text(left + statement + right) == statement,
{
    let whole = left + statement + gap + seq![';'] + right;
    let core = statement + gap + seq![';'];
    assert(whole =~= left + core + right);
    lemma_plain_file(left, core, right);
    assert(core.drop_last() =~= Seq::<char>::empty() + statement + gap);
    text::law_trimming_takes_off_white_space(seq![], statement, gap);
    let short = left + statement + right;
    if !holds_pair(short, '-', '-') && !holds_pair(short, '/', '*') {
        let n = (left + statement).len() as int;
        assert forall|i: int| 0 <= i < short.len() implies short[i] != '\r' by {
            if i < n {
                assert(short[i] == whole[i]);
            } else {
                assert(short[i] == whole[i + gap.len() + 1]);
            }
        }
        lemma_plain_file(left, statement, right);
        assert(Seq::<char>::empty() + statement + Seq::<char>::empty() =~= statement);
        text::law_trimming_takes_off_white_space(seq![], statement, seq![]);
    }
}

proof fn lemma_plain_file(left: Seq<char>, core: Seq<char>, right: Seq<char>)
    requires
        core.len() > 0,
        !text::whitespace(core[0]) && !text::whitespace(core.last()),
        forall|i: int| 0 <= i < left.len() ==> text::whitespace(#[trigger] left[i]),
        forall|i: int| 0 <= i < right.len() ==> text::whitespace(#[trigger] right[i]),
        !holds_pair(left + core + right, '-', '-'),
        !holds_pair(left + core + right, '/', '*'),
        !(left + core + right).contains('\r'),
    ensures
        text::trimmed(comments_stripped(blocks_stripped(left + core + right))) == core,
{
    let whole = left + core + right;
    law_block_comment_is_taken_out(whole, seq![], seq![]);
    lemma_nothing_to_cut(whole);
    if whole.last() == '\n' {
        if right.len() == 0 {
            assert(whole.last() == core.last());
        }
        let less = right.drop_last();
        assert(whole.drop_last() =~= left + core + less);
        text::law_trimming_takes_off_white_space(left, core, less);
    } else {
        text::law_trimming_takes_off_white_space(left, core, right);
    }
}

/// A run takes just the files whose names are some text and then `.cql`, and takes them in
/// the order of their names.
pub proof fn law_run_takes_all_migrations_in_order(
    files: Seq<MigrationFileView>,
    sorted: Seq<MigrationFileView>,
    f: MigrationFileView,
    i: int,
    j: int,
)
    requires
        takes(files, sorted),
    ensures
        sorted.contains(f) <==> files.contains(f) && exists|stem: Seq<char>|
            stem.len() > 0 && f.name == #[trigger] (stem + ".cql"@),
        0 <= i < j < sorted.len() ==> name_le(sorted[i].name, sorted[j].name),
{
    let p = |f: MigrationFileView| is_cql(f.name);
    let kept = files.filter(p);
    law_migrations_end_in_cql(f.name);
    broadcast use vstd::seq_lib::group_filter_ensures;
    broadcast use vstd::seq_lib::group_to_multiset_ensures;

    assert(sorted.contains(f) <==> sorted.to_multiset().count(f) > 0);
    assert(kept.contains(f) <==> kept.to_multiset().count(f) > 0);
    if kept.contains(f) {
        files.lemma_filter_contains_rev(p, f);
        assert(p(f));
    }
    if files.contains(f) && is_cql(f.name) {
        assert(p(f));
        assert(kept.contains(f));
    }
}

/// A file of white space holds no statement, and neither does one with nothing else in it
/// than a semicolon.
pub proof fn law_blank_file_holds_no_statement(left: Seq<char>, right: Seq<char>)
    requires
        forall|i: int| 0 <= i < left.len() ==> text::whitespace(#[trigger] left[i]),
        forall|i: int| 0 <= i < right.len() ==> text::whitespace(#[trigger] right[i]),
        !left.contains('\r') && !right.contains('\r'),
    ensures
        statement_text(left).len() == 0,
        statement_text(left + seq![';'] + right).len() == 0,
{
    let none = Seq::<char>::empty();
    assert forall|i: int| 0 <= i < left.len() implies left[i] != '-' && #[trigger] left[i] != '/' by {
        assert(text::whitespace(left[i]));
    }
    law_block_comment_is_taken_out(left, none, none);
    lemma_nothing_to_cut(left);
    let cut = comments_stripped(left);
    assert(cut + none + none =~= cut);
    assert forall|i: int| 0 <= i < cut.len() implies text::whitespace(#[trigger] cut[i]) by {
        assert(cut[i] == left[i]);
    }
    text::law_trimming_takes_off_white_space(cut, none, none);
    assert(none + none + none =~= none);
    text::law_trimming_takes_off_white_space(none, none, none);
    let whole = left + seq![';'] + right;
    assert forall|i: int| 0 <= i < whole.len() implies whole[i] != '-' && #[trigger] whole[i] != '/'
        && whole[i] != '\r' by {
        if i < left.len() {
            assert(whole[i] == left[i]);
            assert(text::whitespace(left[i]));
        } else if i > left.len() {
            assert(whole[i] == right[i - left.len() - 1]);
            assert(text::whitespace(right[i - left.len() - 1]));
        }
    }
    assert(!text::whitespace(';'));
    lemma_plain_file(left, seq![';'], right);
    assert(seq![';'].drop_last() =~= none);
}

/// Two files have the same checksum only if their whole digests agree, so that a file that
/// changed is found out.
pub proof fn law_file_checksums_differ_where_digests_do(a: Seq<char>, b: Seq<char>)
    ensures
        file_checksum(a) == file_checksum(b) <==> digest::sha256(encode_utf8(a)) == digest::sha256(
            encode_utf8(b),
        ),
{
    if file_checksum(a) == file_checksum(b) {
        digest::law_hex_text_is_one_to_one(
            digest::sha256(encode_utf8(a)),
            digest::sha256(encode_utf8(b)),
        );
    }
}

} // verus!
