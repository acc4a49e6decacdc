//! Errors of an apply pass and the layered narrative they render to.
use vstd::prelude::*;
use vstd::string::*;
use crate::text::{decimal, padded_int, push_decimal, push_padded_int};
use crate::record::{display_of, file_name_of, joined, MigrationRecord};
use crate::ledger::versions;

verus! {

/// What the database said about a script it could not execute.
pub struct DbError {
    pub message: String,
    /// Character offset into the script's text where the database located the
    /// fault, when it reports one.
    pub position: Option<usize>,
}

/// Why an apply pass stopped.
pub enum MigrationFailure {
    /// A directory could not be read as a set of scripts.
    SourceLoad { dir: String, detail: String },
    /// One script failed to execute.
    Execution {
        dir: String,
        file: String,
        heading: String,
        database: String,
        sql: String,
        error: DbError,
    },
    /// The ledger failed for a reason tied to no single script.
    Ledger { dir: String, detail: String },
}

/// The directory given to new projects for their scripts.
pub const MIGRATIONS_DIR: &'static str = "sqlpage/migrations";

/// The part of the guidance that follows the failed operation.
pub open spec fn guidance_tail() -> Seq<char> {
    ".\nThe path 'sqlpage/migrations' has to point to a directory, which contains valid SQL files\nwith names using the format '<VERSION>_<DESCRIPTION>.sql',\nwhere <VERSION> is a positive number, and <DESCRIPTION> is a string.\nThe current state of migrations will be stored in a table called _sqlx_migrations."@
}

/// The explanation given when a directory cannot be read as scripts: the
/// operation that failed, the expected file naming and the ledger's table.
pub open spec fn guidance(operation: Seq<char>) -> Seq<char> {
    "An error occurred while "@ + operation + guidance_tail()
}

/// Line and column (both from 1) of the character at `pos` in `s`.
pub open spec fn line_col(s: Seq<char>, pos: nat) -> (nat, nat)
    decreases pos,
{
    if pos == 0 {
        (1, 1)
    } else {
        let (l, c) = line_col(s, (pos - 1) as nat);
        if s[pos - 1] == '\n' { (l + 1, 1) } else { (l, c + 1) }
    }
}

/// `:line:column` of a reported position, clamped to the script's end;
/// nothing when the database reported none.
pub open spec fn location(sql: Seq<char>, position: Option<usize>) -> Seq<char> {
    match position {
        None => Seq::empty(),
        Some(p) => {
            let at = if p <= sql.len() { p as nat } else { sql.len() };
            seq![':'] + decimal(line_col(sql, at).0) + seq![':'] + decimal(line_col(sql, at).1)
        }
    }
}

/// The outermost layer of every failure: which directory was being applied.
pub open spec fn dir_context(dir: Seq<char>) -> Seq<char> {
    "failed to apply database migrations from "@ + dir + seq!['\n']
}

/// The full text of a failure.  An execution failure reads, from the outside
/// in: the directory, then the script and the database, then the script's file
/// with the database's message positioned in it, then the script's text.
pub open spec fn failure_text(f: MigrationFailure) -> Seq<char> {
    match f {
        MigrationFailure::SourceLoad { dir, detail } => dir_context(dir@) + detail@,
        MigrationFailure::Ledger { dir, detail } => dir_context(dir@) + detail@,
        MigrationFailure::Execution { dir, file, heading, database, sql, error } =>
            dir_context(dir@)
                + "failed to apply migration "@ + heading@ + " to "@ + database@ + seq!['\n']
                + file@ + location(sql@, error.position) + ": "@ + error.message@ + seq!['\n']
                + sql@,
    }
}

/// `f` reports the failure of the script of `version` in `set`, read from
/// `dir` and applied to `database`, with the database's `error`.
pub open spec fn reports_execution(
    f: MigrationFailure,
    dir: Seq<char>,
    set: Seq<MigrationRecord>,
    version: i64,
    database: Seq<char>,
    error: DbError,
) -> bool {
    exists|i: int| 0 <= i < set.len() && (#[trigger] set[i]).version == version && (f matches
        MigrationFailure::Execution { dir: d, file, heading, database: db, sql, error: e }
            && d@ == dir
            && file@ == joined(dir, file_name_of(version, set[i].description@))
            && heading@ == display_of(version, set[i].kind, set[i].description@)
            && db@ == database
            && sql@ == set[i].sql@
            && e == error)
}

/// What the ledger says of a recorded version absent from the layer.
pub open spec fn missing_text(v: i64) -> Seq<char> {
    "migration "@ + padded_int(v as int, 0) + " was previously applied but is missing in the resolved migrations"@
}

/// Whether `part` occurs in `whole` as a contiguous run.
pub open spec fn mentions(whole: Seq<char>, part: Seq<char>) -> bool {
    exists|i: int| 0 <= i <= whole.len() - part.len() && #[trigger] whole.subrange(i, i + part.len()) == part
}

/// The text of an execution failure names the directory, the script's file,
/// its heading (zero-padded version and description) and the database, and
/// holds the script's full text.
pub proof fn lemma_execution_text_mentions(
    dir: String,
    file: String,
    heading: String,
    database: String,
    sql: String,
    error: DbError,
)
    ensures
        ({
            let t = failure_text(MigrationFailure::Execution { dir, file, heading, database, sql, error });
            mentions(t, dir@) && mentions(t, file@) && mentions(t, heading@) && mentions(t, database@)
                && mentions(t, sql@)
        }),
{
    let t = failure_text(MigrationFailure::Execution { dir, file, heading, database, sql, error });
    let a = "failed to apply database migrations from "@;
    let b = "failed to apply migration "@;
    let c = " to "@;
    let d = ": "@;
    let nl = seq!['\n'];
    let loc = location(sql@, error.position);
    let i_dir = a.len() as int;
    let i_heading = i_dir + dir@.len() + 1 + b.len();
    let i_db = i_heading + heading@.len() + c.len();
    let i_file = i_db + database@.len() + 1;
    let i_sql = i_file + file@.len() + loc.len() + d.len() + error.message@.len() + 1;
    assert(t =~= a + dir@ + nl + b + heading@ + c + database@ + nl + file@ + loc + d + error.message@ + nl + sql@);
    assert(t.subrange(i_dir, i_dir + dir@.len()) =~= dir@);
    assert(t.subrange(i_heading, i_heading + heading@.len()) =~= heading@);
    assert(t.subrange(i_db, i_db + database@.len()) =~= database@);
    assert(t.subrange(i_file, i_file + file@.len()) =~= file@);
    assert(t.subrange(i_sql, i_sql + sql@.len()) =~= sql@);
}

/// The explanation for a directory that cannot be read as scripts.
pub fn migration_err(operation: &str) -> (r: String)
    ensures
        r@ == guidance(operation@),
{
    proof {
        reveal_strlit("An error occurred while ");
        reveal_strlit(".\nThe path 'sqlpage/migrations' has to point to a directory, which contains valid SQL files\nwith names using the format '<VERSION>_<DESCRIPTION>.sql',\nwhere <VERSION> is a positive number, and <DESCRIPTION> is a string.\nThe current state of migrations will be stored in a table called _sqlx_migrations.");
    }
    let mut s = String::from_str("An error occurred while ");
    s.append(operation);
    s.append(".\nThe path 'sqlpage/migrations' has to point to a directory, which contains valid SQL files\nwith names using the format '<VERSION>_<DESCRIPTION>.sql',\nwhere <VERSION> is a positive number, and <DESCRIPTION> is a string.\nThe current state of migrations will be stored in a table called _sqlx_migrations.");
    s
}

/// Line and column of the character at `pos` in `s`.
pub fn line_col_of(s: &str, pos: usize) -> (r: (u128, u128))
    requires
        pos <= s@.len(),
    ensures
        r.0 as nat == line_col(s@, pos as nat).0,
        r.1 as nat == line_col(s@, pos as nat).1,
{
    let mut line: u128 = 1;
    let mut col: u128 = 1;
    let mut i: usize = 0;
    while i < pos
        invariant
            i <= pos <= s@.len(),
            line as nat == line_col(s@, i as nat).0,
            col as nat == line_col(s@, i as nat).1,
            line <= i + 1,
            col <= i + 1,
        decreases pos - i,
    {
        if s.get_char(i) == '\n' {
            line = line + 1;
            col = 1;
        } else {
            col = col + 1;
        }
        i = i + 1;
    }
    (line, col)
}

/// Appends `:line:column` for a reported position to `out`.
fn push_location(out: &mut String, sql: &str, position: Option<usize>)
    ensures
        final(out)@ == old(out)@ + location(sql@, position),
{
    match position {
        None => {
            assert(old(out)@ + location(sql@, position) =~= old(out)@);
        },
        Some(p) => {
            proof { reveal_strlit(":"); }
            let len: usize = sql.unicode_len();
            let at: usize = if p <= len { p } else { len };
            let (line, col) = line_col_of(sql, at);
            out.append(":");
            push_decimal(out, line);
            out.append(":");
            push_decimal(out, col);
            assert(final(out)@ =~= old(out)@ + location(sql@, position));
        },
    }
}

impl MigrationFailure {
    /// The failure of one script, reported against the file it came from.
    /// `database` names the database it was applied to.
    pub fn execution(dir: &str, set: &Vec<MigrationRecord>, version: i64, database: &str, error: DbError) -> (r: Self)
        requires
            versions(set@).contains(version),
        ensures
            reports_execution(r, dir@, set@, version, database@, error),
    {
        let mut i: usize = 0;
        while i < set.len() && set[i].version != version
            invariant
                i <= set@.len(),
                versions(set@).contains(version),
                forall|j: int| 0 <= j < i ==> set@[j].version != version,
            decreases set@.len() - i,
        {
            i = i + 1;
        }
        if i == set.len() {
            proof {
                let k = choose|k: int| 0 <= k < versions(set@).len() && versions(set@)[k] == version;
                assert(set@[k].version == version);
            }
        }
        let m = &set[i];
        let heading = m.display();
        let file = m.source_file(dir);
        let sql = String::from_str(m.sql.as_str());
        let r = MigrationFailure::Execution {
            dir: String::from_str(dir),
            file,
            heading,
            database: String::from_str(database),
            sql,
            error,
        };
        assert(set@[i as int].version == version);
        r
    }

    /// The failure to read `dir` as a set of scripts.
    pub fn source_load(dir: &str, cause: &str) -> (r: Self)
        ensures
            r matches MigrationFailure::SourceLoad { dir: d, detail }
                && d@ == dir@ && detail@ == guidance("preparing the database migration"@) + seq!['\n'] + cause@,
    {
        proof {
            reveal_strlit("preparing the database migration");
            reveal_strlit("\n");
        }
        let mut detail = migration_err("preparing the database migration");
        detail.append("\n");
        detail.append(cause);
        MigrationFailure::SourceLoad { dir: String::from_str(dir), detail }
    }

    /// A ledger failure tied to no single script, met while applying `dir`.
    pub fn ledger(dir: &str, detail: &str) -> (r: Self)
        ensures
            r matches MigrationFailure::Ledger { dir: d, detail: t } && d@ == dir@ && t@ == detail@,
    {
        MigrationFailure::Ledger { dir: String::from_str(dir), detail: String::from_str(detail) }
    }

    /// The ledger's refusal of a layer that lacks a recorded version.
    pub fn missing(dir: &str, version: i64) -> (r: Self)
        ensures
            r matches MigrationFailure::Ledger { dir: d, detail } && d@ == dir@ && detail@ == missing_text(version),
    {
        proof {
            reveal_strlit("migration ");
            reveal_strlit(" was previously applied but is missing in the resolved migrations");
        }
        let mut detail = String::from_str("migration ");
        push_padded_int(&mut detail, version, 0);
        detail.append(" was previously applied but is missing in the resolved migrations");
        MigrationFailure::Ledger { dir: String::from_str(dir), detail }
    }

    /// The text of the failure, outermost context first.
    pub fn message(&self) -> (r: String)
        ensures
            r@ == failure_text(*self),
    {
        proof {
            reveal_strlit("failed to apply database migrations from ");
            reveal_strlit("\n");
            reveal_strlit("failed to apply migration ");
            reveal_strlit(" to ");
            reveal_strlit(": ");
        }
        let mut s = String::from_str("failed to apply database migrations from ");
        match self {
            MigrationFailure::SourceLoad { dir, detail } => {
                s.append(dir.as_str());
                s.append("\n");
                s.append(detail.as_str());
            },
            MigrationFailure::Ledger { dir, detail } => {
                s.append(dir.as_str());
                s.append("\n");
                s.append(detail.as_str());
            },
            MigrationFailure::Execution { dir, file, heading, database, sql, error } => {
                s.append(dir.as_str());
                s.append("\n");
                s.append("failed to apply migration ");
                s.append(heading.as_str());
                s.append(" to ");
                s.append(database.as_str());
                s.append("\n");
                s.append(file.as_str());
                push_location(&mut s, sql.as_str(), error.position);
                s.append(": ");
                s.append(error.message.as_str());
                s.append("\n");
                s.append(sql.as_str());
            },
        }
        assert(s@ =~= failure_text(*self));
        s
    }
}

} // verus!
