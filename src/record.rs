//! One migration script as loaded from a directory, and how it is named.
use vstd::prelude::*;
use vstd::string::*;
use crate::text::{padded_int, push_padded_int};

verus! {

/// How a script takes part in the schema history.
#[derive(Debug, Clone, Copy, PartialEq, Eq, Structural)]
pub enum MigrationKind {
    /// A single file with no counterpart.
    Simple,
    /// The forward half of a reversible pair.
    ReversibleUp,
    /// The backward half of a reversible pair; never applied by a forward pass.
    ReversibleDown,
}

/// A versioned, described, executable unit of schema change.
pub struct MigrationRecord {
    pub version: i64,
    pub description: String,
    pub kind: MigrationKind,
    pub sql: String,
}

/// Width to which versions are zero-padded in names and messages.
pub const VERSION_WIDTH: usize = 4;

/// The kind's name as messages show it.
pub open spec fn kind_label(k: MigrationKind) -> Seq<char> {
    match k {
        MigrationKind::Simple => "Simple"@,
        MigrationKind::ReversibleUp => "ReversibleUp"@,
        MigrationKind::ReversibleDown => "ReversibleDown"@,
    }
}

/// `VVVV`: the version zero-padded to four characters.
pub open spec fn padded_version(v: i64) -> Seq<char> {
    padded_int(v as int, VERSION_WIDTH as nat)
}

/// `[VVVV]`, then ` (Kind)` unless the kind is simple, then ` description`.
pub open spec fn display_of(version: i64, kind: MigrationKind, description: Seq<char>) -> Seq<char> {
    seq!['['] + padded_version(version) + seq![']']
        + (if kind == MigrationKind::Simple { Seq::empty() } else { " ("@ + kind_label(kind) + ")"@ })
        + seq![' '] + description
}

/// `VVVV_description.sql`: the file name a script of this version was read from.
pub open spec fn file_name_of(version: i64, description: Seq<char>) -> Seq<char> {
    padded_version(version) + seq!['_'] + description + ".sql"@
}

/// `name` placed inside `dir`, with one separator between them.
pub open spec fn joined(dir: Seq<char>, name: Seq<char>) -> Seq<char> {
    if dir.len() == 0 || dir.last() == '/' {
        dir + name
    } else {
        dir + seq!['/'] + name
    }
}

impl MigrationKind {
    /// Whether a forward pass executes scripts of this kind.
    pub fn is_up(&self) -> (r: bool)
        ensures
            r == (*self != MigrationKind::ReversibleDown),
    {
        match self {
            MigrationKind::ReversibleDown => false,
            _ => true,
        }
    }

    /// The kind's name as it appears in messages.
    pub fn label(&self) -> (r: &'static str)
        ensures
            r@ == kind_label(*self),
    {
        proof {
            reveal_strlit("Simple");
            reveal_strlit("ReversibleUp");
            reveal_strlit("ReversibleDown");
        }
        match self {
            MigrationKind::Simple => "Simple",
            MigrationKind::ReversibleUp => "ReversibleUp",
            MigrationKind::ReversibleDown => "ReversibleDown",
        }
    }
}

impl MigrationRecord {
    /// A record with the given fields.
    pub fn new(version: i64, description: String, kind: MigrationKind, sql: String) -> (r: Self)
        ensures
            r.version == version,
            r.description == description,
            r.kind == kind,
            r.sql == sql,
    {
        MigrationRecord { version, description, kind, sql }
    }

    /// The record as shown in logs and error messages, e.g. `[0002] add_users`
    /// or `[0003] (ReversibleUp) add_index`.
    pub fn display(&self) -> (r: String)
        ensures
            r@ == display_of(self.version, self.kind, self.description@),
    {
        proof {
            reveal_strlit("");
            reveal_strlit("[");
            reveal_strlit("]");
            reveal_strlit(" (");
            reveal_strlit(")");
            reveal_strlit(" ");
        }
        let mut s = String::from_str("[");
        push_padded_int(&mut s, self.version, VERSION_WIDTH);
        s.append("]");
        if self.kind != MigrationKind::Simple {
            s.append(" (");
            s.append(self.kind.label());
            s.append(")");
        }
        s.append(" ");
        s.append(self.description.as_str());
        assert(s@ =~= display_of(self.version, self.kind, self.description@));
        s
    }

    /// The file, inside `dir`, that this record was read from.
    pub fn source_file(&self, dir: &str) -> (r: String)
        ensures
            r@ == joined(dir@, file_name_of(self.version, self.description@)),
    {
        proof {
            reveal_strlit("/");
            reveal_strlit("_");
            reveal_strlit(".sql");
        }
        let mut s = String::from_str(dir);
        let n: usize = dir.unicode_len();
        if n > 0 && dir.get_char(n - 1) != '/' {
            s.append("/");
        }
        push_padded_int(&mut s, self.version, VERSION_WIDTH);
        s.append("_");
        s.append(self.description.as_str());
        s.append(".sql");
        assert(s@ =~= joined(dir@, file_name_of(self.version, self.description@)));
        s
    }
}

} // verus!
