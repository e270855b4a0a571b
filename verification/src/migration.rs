//! Versioned schema migrations: the closed vocabulary of schema
//! transformations, the append-only ledger record, validity of a
//! migration list, and the store's standard migration sequence.

use vstd::prelude::*;

verus! {

/// Which logical tables and columns exist in the store's schema. Tables
/// and columns are only ever added, never dropped.
#[derive(Clone, Copy, PartialEq, Eq, Structural, Debug)]
pub struct Schema {
    /// The migration ledger itself; created unconditionally at startup.
    pub ledger_table: bool,
    pub tasks_table: bool,
    pub notes_table: bool,
    pub concerns_table: bool,
    /// The full-text search index table.
    pub search_table: bool,
    /// The title column on the notes table.
    pub note_title_column: bool,
}

impl Schema {
    /// The schema of a freshly opened, never-migrated store.
    pub open spec fn initial() -> Schema {
        Schema {
            ledger_table: false,
            tasks_table: false,
            notes_table: false,
            concerns_table: false,
            search_table: false,
            note_title_column: false,
        }
    }
}

/// A single schema transformation. Each step is idempotent: applying it
/// to a schema that already has its effect is a no-op, so an interrupted
/// migration can safely be retried.
#[derive(Clone, Copy, PartialEq, Eq, Structural, Debug)]
pub enum SchemaStep {
    CreateTaskTable,
    CreateNoteTable,
    CreateConcernTable,
    CreateSearchTable,
    /// Adds the title column to the notes table and backfills the
    /// default title into every existing note and its index entry.
    AddNoteTitleColumn,
}

/// Mathematical view of a [`Migration`].
#[verifier::ext_equal]
pub ghost struct MigrationView {
    pub version: nat,
    pub description: Seq<char>,
    pub step: SchemaStep,
}

/// A named, versioned, one-way schema transformation, applied at most
/// once over the store's lifetime.
pub struct Migration {
    pub version: u64,
    pub description: String,
    pub step: SchemaStep,
}

impl View for Migration {
    type V = MigrationView;

    open spec fn view(&self) -> MigrationView {
        MigrationView {
            version: self.version as nat,
            description: self.description@,
            step: self.step,
        }
    }
}

/// Mathematical view of a [`MigrationRecord`].
#[verifier::ext_equal]
pub ghost struct RecordView {
    pub version: nat,
    pub description: Seq<char>,
    pub applied_at: nat,
}

/// One row of the append-only migration ledger.
pub struct MigrationRecord {
    pub version: u64,
    pub description: String,
    pub applied_at: u64,
}

impl View for MigrationRecord {
    type V = RecordView;

    open spec fn view(&self) -> RecordView {
        RecordView {
            version: self.version as nat,
            description: self.description@,
            applied_at: self.applied_at as nat,
        }
    }
}

/// The views of a migration list.
pub open spec fn migration_views(ms: Seq<Migration>) -> Seq<MigrationView> {
    ms.map_values(|m: Migration| m@)
}

/// A migration list is valid when its versions are strictly ascending,
/// which rules out both duplicates and out-of-order entries.
pub open spec fn valid_versions(ms: Seq<MigrationView>) -> bool {
    forall|i: int, j: int| 0 <= i < j < ms.len() ==> ms[i].version < ms[j].version
}

/// The first position whose version is not strictly above its
/// predecessor's, scanning from position `i`; `None` if the tail is
/// strictly ascending.
pub open spec fn first_order_fault(ms: Seq<MigrationView>, i: int) -> Option<int>
    decreases ms.len() - i when 1 <= i <= ms.len()
{
    if i >= ms.len() {
        None
    } else if ms[i].version <= ms[i - 1].version {
        Some(i)
    } else {
        first_order_fault(ms, i + 1)
    }
}

/// The first position that violates strictly ascending version order,
/// or `None` for a valid list.
pub open spec fn list_fault(ms: Seq<MigrationView>) -> Option<int> {
    if ms.len() <= 1 {
        None
    } else {
        first_order_fault(ms, 1)
    }
}

proof fn lemma_no_fault_from(ms: Seq<MigrationView>, i: int)
    requires
        1 <= i <= ms.len(),
        first_order_fault(ms, i) is None,
    ensures
        forall|k: int| i <= k < ms.len() ==> ms[k - 1].version < #[trigger] ms[k].version,
    decreases ms.len() - i,
{
    if i < ms.len() {
        lemma_no_fault_from(ms, i + 1);
    }
}

proof fn lemma_adjacent_sorted(ms: Seq<MigrationView>, i: int, j: int)
    requires
        forall|k: int| 1 <= k < ms.len() ==> ms[k - 1].version < #[trigger] ms[k].version,
        0 <= i < j < ms.len(),
    ensures
        ms[i].version < ms[j].version,
    decreases j - i,
{
    if i + 1 < j {
        lemma_adjacent_sorted(ms, i + 1, j);
    }
}

proof fn lemma_fault_props(ms: Seq<MigrationView>, i: int)
    requires
        1 <= i <= ms.len(),
    ensures
        first_order_fault(ms, i) matches Some(k) ==> i <= k < ms.len() && ms[k].version
            <= ms[k - 1].version,
    decreases ms.len() - i,
{
    if i < ms.len() && !(ms[i].version <= ms[i - 1].version) {
        lemma_fault_props(ms, i + 1);
    }
}

/// A list passes the order check exactly when its versions are strictly
/// ascending.
#[verifier::rlimit(50)]
pub proof fn lemma_list_fault_none_iff_valid(ms: Seq<MigrationView>)
    ensures
        list_fault(ms) is None <==> valid_versions(ms),
{
    if ms.len() <= 1 {
        assert(valid_versions(ms));
    } else {
        if list_fault(ms) is None {
            lemma_no_fault_from(ms, 1);
            assert forall|i: int, j: int| 0 <= i < j < ms.len() implies ms[i].version
                < ms[j].version by {
                lemma_adjacent_sorted(ms, i, j);
            }
        }
        if valid_versions(ms) {
            lemma_fault_props(ms, 1);
            match first_order_fault(ms, 1) {
                Some(k) => {
                    assert(ms[k - 1].version < ms[k].version);
                },
                None => {},
            }
        }
    }
}

/// The store's standard migration sequence: the five transformations
/// that bring a fresh store to the latest schema, with their persisted
/// version numbers and descriptions.
pub open spec fn standard_migrations_spec() -> Seq<MigrationView> {
    seq![
        MigrationView { version: 1, description: "create_todos_table"@, step: SchemaStep::CreateTaskTable },
        MigrationView { version: 2, description: "create_notes_table"@, step: SchemaStep::CreateNoteTable },
        MigrationView { version: 3, description: "create_concerns_table"@, step: SchemaStep::CreateConcernTable },
        MigrationView { version: 4, description: "create_fts_virtual_table"@, step: SchemaStep::CreateSearchTable },
        MigrationView { version: 5, description: "add_title_to_notes"@, step: SchemaStep::AddNoteTitleColumn },
    ]
}

/// Builds the standard migration list. Its versions are strictly
/// ascending, so it always passes the runner's order check.
pub fn standard_migrations() -> (r: Vec<Migration>)
    ensures
        migration_views(r@) == standard_migrations_spec(),
        valid_versions(standard_migrations_spec()),
{
    let mut r: Vec<Migration> = Vec::new();
    r.push(
        Migration {
            version: 1,
            description: String::from_str("create_todos_table"),
            step: SchemaStep::CreateTaskTable,
        },
    );
    r.push(
        Migration {
            version: 2,
            description: String::from_str("create_notes_table"),
            step: SchemaStep::CreateNoteTable,
        },
    );
    r.push(
        Migration {
            version: 3,
            description: String::from_str("create_concerns_table"),
            step: SchemaStep::CreateConcernTable,
        },
    );
    r.push(
        Migration {
            version: 4,
            description: String::from_str("create_fts_virtual_table"),
            step: SchemaStep::CreateSearchTable,
        },
    );
    r.push(
        Migration {
            version: 5,
            description: String::from_str("add_title_to_notes"),
            step: SchemaStep::AddNoteTitleColumn,
        },
    );
    proof {
        assert(migration_views(r@) =~= standard_migrations_spec());
    }
    r
}

/// A migration error distinguishes a bad migration list (duplicate or
/// out-of-order version, detected before anything is applied) from a bad
/// migration content (a schema step that cannot apply); the latter
/// carries the failing version and description.
#[derive(Debug)]
pub enum MigrationError {
    DuplicateVersion(u64),
    OutOfOrderVersion(u64),
    SchemaFailure(u64, String),
}

} // verus!
