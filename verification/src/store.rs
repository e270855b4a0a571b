//! The store: three primary entity tables, the migration ledger, and the
//! derived full-text search index, kept in lock-step with every write.
//!
//! Every mutating operation either leaves the store exactly as it was
//! (when it reports an error) or performs the primary mutation and its
//! index mutation together, mirroring a shared transaction: a reader
//! never observes a live entity without its index entry or an index
//! entry without its owner.
//!
//! Projection of an entity into its index entry: a task uses its text as
//! both title and content; a note uses its title (empty before the
//! schema has a title column) and its content; a concern uses its text
//! as the title and an empty content. Each entry also carries its
//! owner's `updated_at`, and the index is kept sorted by it, newest
//! first, so a search ranks by recency.

use vstd::prelude::*;
use crate::entity::{
    Task, TaskView, Note, NoteView, Concern, ConcernView, SearchEntry, SearchEntryView, Severity,
    Status, ItemType, decimal, decimal_string, lemma_decimal_injective, severity_of,
    status_of,
};
use crate::migration::{
    Schema, SchemaStep, Migration, MigrationView, MigrationRecord, RecordView, MigrationError,
    migration_views, valid_versions, list_fault, first_order_fault, lemma_list_fault_none_iff_valid,
};
use crate::search::query_matches;
use crate::search::text_matches;

verus! {

/// An entity write rejected before anything is written; the store is
/// left unchanged.
#[derive(Clone, Copy, PartialEq, Eq, Structural, Debug)]
pub enum StoreError {
    /// The table needed by the operation does not exist yet.
    SchemaNotReady,
    /// A task's or concern's text must not be empty.
    EmptyText,
    /// A note's title, when supplied, must not be empty.
    EmptyTitle,
    /// A note title was supplied but the schema has no title column yet.
    NoTitleColumn,
    /// A task or concern identifier is already taken.
    DuplicateId,
    /// No entity with the given identifier exists.
    NotFound,
    /// A concern's severity must be one of low, medium, high.
    InvalidSeverity,
    /// A concern's status must be one of open, in_progress, resolved.
    InvalidStatus,
}

/// Mathematical view of the whole store.
#[verifier::ext_equal]
pub ghost struct StoreView {
    pub schema: Schema,
    pub ledger: Seq<RecordView>,
    pub tasks: Seq<TaskView>,
    pub notes: Seq<NoteView>,
    pub concerns: Seq<ConcernView>,
    pub index: Seq<SearchEntryView>,
    pub next_note_id: nat,
    pub clock: nat,
}

/// The default note title, used when a note is created without one and
/// backfilled when the title column is added.
pub open spec fn default_note_title() -> Seq<char> {
    "Untitled Note"@
}

/// A note's projected title: its title field, or empty before the
/// schema has a title column.
pub open spec fn note_title_view(n: NoteView) -> Seq<char> {
    match n.title {
        Some(t) => t,
        None => Seq::empty(),
    }
}

/// The index entry derived from a task: its text serves as both title
/// and content.
pub open spec fn entry_of_task(t: TaskView) -> SearchEntryView {
    SearchEntryView {
        item_type: ItemType::Task,
        item_id: t.id,
        title: t.text,
        content: t.text,
        updated_at: t.updated_at,
    }
}

/// The index entry derived from a note: its identifier in decimal, its
/// projected title, and its content.
pub open spec fn entry_of_note(n: NoteView) -> SearchEntryView {
    SearchEntryView {
        item_type: ItemType::Note,
        item_id: decimal(n.id),
        title: note_title_view(n),
        content: n.content,
        updated_at: n.updated_at,
    }
}

/// The index entry derived from a concern: its text as the title and an
/// empty content. This projection is stable: severity and status are not
/// indexed.
pub open spec fn entry_of_concern(c: ConcernView) -> SearchEntryView {
    SearchEntryView {
        item_type: ItemType::Concern,
        item_id: c.id,
        title: c.text,
        content: Seq::empty(),
        updated_at: c.updated_at,
    }
}

/// Some task carries this identifier.
pub open spec fn task_id_taken(ts: Seq<TaskView>, id: Seq<char>) -> bool {
    exists|i: int| 0 <= i < ts.len() && ts[i].id == id
}

/// Some note carries this identifier.
pub open spec fn note_id_taken(ns: Seq<NoteView>, id: nat) -> bool {
    exists|i: int| 0 <= i < ns.len() && ns[i].id == id
}

/// Some concern carries this identifier.
pub open spec fn concern_id_taken(cs: Seq<ConcernView>, id: Seq<char>) -> bool {
    exists|i: int| 0 <= i < cs.len() && cs[i].id == id
}

/// The ledger holds a record for this version.
pub open spec fn ledger_has(l: Seq<RecordView>, v: nat) -> bool {
    exists|i: int| 0 <= i < l.len() && l[i].version == v
}

/// The index holds an entry under this (item type, item identifier) key.
pub open spec fn index_has(ix: Seq<SearchEntryView>, t: ItemType, id: Seq<char>) -> bool {
    exists|k: int| 0 <= k < ix.len() && ix[k].item_type == t && ix[k].item_id == id
}

/// The index without any entry under the given key, order preserved.
pub open spec fn remove_key(ix: Seq<SearchEntryView>, t: ItemType, id: Seq<char>) -> Seq<
    SearchEntryView,
>
    decreases ix.len(),
{
    if ix.len() == 0 {
        Seq::empty()
    } else if ix[0].item_type == t && ix[0].item_id == id {
        remove_key(ix.drop_first(), t, id)
    } else {
        seq![ix[0]] + remove_key(ix.drop_first(), t, id)
    }
}

/// The views of a sequence of tasks.
pub open spec fn task_views(ts: Seq<Task>) -> Seq<TaskView> {
    ts.map_values(|t: Task| t@)
}

/// The views of a sequence of notes.
pub open spec fn note_views(ns: Seq<Note>) -> Seq<NoteView> {
    ns.map_values(|n: Note| n@)
}

/// The views of a sequence of concerns.
pub open spec fn concern_views(cs: Seq<Concern>) -> Seq<ConcernView> {
    cs.map_values(|c: Concern| c@)
}

/// The views of a sequence of index entries.
pub open spec fn entry_views(es: Seq<SearchEntry>) -> Seq<SearchEntryView> {
    es.map_values(|e: SearchEntry| e@)
}

/// The views of a sequence of ledger records.
pub open spec fn record_views(rs: Seq<MigrationRecord>) -> Seq<RecordView> {
    rs.map_values(|r: MigrationRecord| r@)
}

/// An index entry is the exact projection of some live entity of its
/// item type.
pub open spec fn entry_owner_ok(s: StoreView, e: SearchEntryView) -> bool {
    match e.item_type {
        ItemType::Task => exists|i: int| 0 <= i < s.tasks.len() && entry_of_task(#[trigger] s.tasks[i]) == e,
        ItemType::Note => exists|i: int| 0 <= i < s.notes.len() && entry_of_note(#[trigger] s.notes[i]) == e,
        ItemType::Concern => exists|i: int|
            0 <= i < s.concerns.len() && entry_of_concern(#[trigger] s.concerns[i]) == e,
    }
}

impl StoreView {
    /// The view of a freshly opened, never-migrated store.
    pub open spec fn initial() -> StoreView {
        StoreView {
            schema: Schema::initial(),
            ledger: Seq::empty(),
            tasks: Seq::empty(),
            notes: Seq::empty(),
            concerns: Seq::empty(),
            index: Seq::empty(),
            next_note_id: 1,
            clock: 0,
        }
    }

    /// Every index entry is owned by a live entity, and every live
    /// entity has an entry under its key.
    pub open spec fn indexed(self) -> bool {
        &&& forall|k: int| 0 <= k < self.index.len() ==> entry_owner_ok(self, #[trigger] self.index[k])
        &&& forall|i: int|
            0 <= i < self.tasks.len() ==> index_has(
                self.index,
                ItemType::Task,
                (#[trigger] self.tasks[i]).id,
            )
        &&& forall|i: int|
            0 <= i < self.notes.len() ==> index_has(
                self.index,
                ItemType::Note,
                decimal((#[trigger] self.notes[i]).id),
            )
        &&& forall|i: int|
            0 <= i < self.concerns.len() ==> index_has(
                self.index,
                ItemType::Concern,
                (#[trigger] self.concerns[i]).id,
            )
    }

    /// Well-formedness: unique identifiers and ledger versions, schema
    /// gating (no rows without their table), write-time constraints
    /// (non-empty texts and titles, titles present exactly when the
    /// schema has the column), timestamps below the store's clock, the
    /// index in lock-step with the live entities under unique keys, and
    /// the index sorted by recency.
    pub open spec fn wf(self) -> bool {
        &&& forall|i: int, j: int|
            0 <= i < j < self.tasks.len() ==> (#[trigger] self.tasks[i]).id != (
            #[trigger] self.tasks[j]).id
        &&& forall|i: int, j: int|
            0 <= i < j < self.notes.len() ==> (#[trigger] self.notes[i]).id != (
            #[trigger] self.notes[j]).id
        &&& forall|i: int, j: int|
            0 <= i < j < self.concerns.len() ==> (#[trigger] self.concerns[i]).id != (
            #[trigger] self.concerns[j]).id
        &&& forall|i: int, j: int|
            0 <= i < j < self.ledger.len() ==> (#[trigger] self.ledger[i]).version != (
            #[trigger] self.ledger[j]).version
        &&& forall|k: int, l: int|
            0 <= k < l < self.index.len() ==> !((#[trigger] self.index[k]).item_type == (
            #[trigger] self.index[l]).item_type && self.index[k].item_id == self.index[l].item_id)
        &&& forall|k: int, l: int|
            0 <= k < l < self.index.len() ==> (#[trigger] self.index[k]).updated_at > (
            #[trigger] self.index[l]).updated_at
        &&& self.indexed()
        &&& (!self.schema.tasks_table ==> self.tasks.len() == 0)
        &&& (!self.schema.notes_table ==> self.notes.len() == 0)
        &&& (!self.schema.concerns_table ==> self.concerns.len() == 0)
        &&& (!self.schema.search_table ==> self.index.len() == 0)
        &&& forall|i: int|
            0 <= i < self.tasks.len() ==> (#[trigger] self.tasks[i]).text.len() > 0
                && self.tasks[i].created_at <= self.tasks[i].updated_at && self.tasks[i].updated_at
                < self.clock
        &&& forall|i: int|
            0 <= i < self.notes.len() ==> (#[trigger] self.notes[i]).id < self.next_note_id
                && self.notes[i].created_at <= self.notes[i].updated_at && self.notes[i].updated_at
                < self.clock && (if self.schema.note_title_column {
                self.notes[i].title matches Some(t) && t.len() > 0
            } else {
                self.notes[i].title is None
            })
        &&& forall|i: int|
            0 <= i < self.concerns.len() ==> (#[trigger] self.concerns[i]).text.len() > 0
                && self.concerns[i].created_at <= self.concerns[i].updated_at
                && self.concerns[i].updated_at < self.clock
        &&& forall|i: int| 0 <= i < self.ledger.len() ==> (#[trigger] self.ledger[i]).applied_at < self.clock
        &&& forall|k: int| 0 <= k < self.index.len() ==> (#[trigger] self.index[k]).updated_at < self.clock
        &&& self.next_note_id >= 1
    }
}

/// Facts about [`remove_key`]: the result is made of entries of the
/// original, contains nothing under the removed key, keeps every entry
/// whose key differs, and preserves key uniqueness and recency order.
pub proof fn lemma_remove_key_facts(ix: Seq<SearchEntryView>, t: ItemType, id: Seq<char>)
    ensures
        remove_key(ix, t, id).len() <= ix.len(),
        forall|k: int|
            0 <= k < remove_key(ix, t, id).len() ==> ix.contains(#[trigger] remove_key(ix, t, id)[k]),
        forall|k: int|
            0 <= k < remove_key(ix, t, id).len() ==> !((#[trigger] remove_key(ix, t, id)[k]).item_type
                == t && remove_key(ix, t, id)[k].item_id == id),
        forall|m: int|
            0 <= m < ix.len() && !((#[trigger] ix[m]).item_type == t && ix[m].item_id == id)
                ==> remove_key(ix, t, id).contains(ix[m]),
        (forall|k: int, l: int|
            0 <= k < l < ix.len() ==> (#[trigger] ix[k]).updated_at > (#[trigger] ix[l]).updated_at)
            ==> (forall|k: int, l: int|
            0 <= k < l < remove_key(ix, t, id).len() ==> (#[trigger] remove_key(ix, t, id)[k]).updated_at
                > (#[trigger] remove_key(ix, t, id)[l]).updated_at),
        (forall|k: int, l: int|
            0 <= k < l < ix.len() ==> !((#[trigger] ix[k]).item_type == (#[trigger] ix[l]).item_type
                && ix[k].item_id == ix[l].item_id)) ==> (forall|k: int, l: int|
            0 <= k < l < remove_key(ix, t, id).len() ==> !((#[trigger] remove_key(ix, t, id)[k]).item_type
                == (#[trigger] remove_key(ix, t, id)[l]).item_type && remove_key(ix, t, id)[k].item_id
                == remove_key(ix, t, id)[l].item_id)),
    decreases ix.len(),
{
    if ix.len() == 0 {
    } else {
        let rest = ix.drop_first();
        lemma_remove_key_facts(rest, t, id);
        assert(forall|m: int| 0 <= m < rest.len() ==> rest[m] == ix[m + 1]);
        if forall|k: int, l: int|
            0 <= k < l < ix.len() ==> !((#[trigger] ix[k]).item_type == (#[trigger] ix[l]).item_type
                && ix[k].item_id == ix[l].item_id) {
            assert forall|k: int, l: int| 0 <= k < l < rest.len() implies !((#[trigger] rest[k]).item_type
                == (#[trigger] rest[l]).item_type && rest[k].item_id == rest[l].item_id) by {
                assert(rest[k] == ix[k + 1] && rest[l] == ix[l + 1]);
            }
        }
        if (forall|k: int, l: int|
            0 <= k < l < ix.len() ==> !((#[trigger] ix[k]).item_type == (#[trigger] ix[l]).item_type
                && ix[k].item_id == ix[l].item_id)) && !(ix[0].item_type == t && ix[0].item_id
            == id) {
            let out = remove_key(ix, t, id);
            assert forall|k: int, l: int| 0 <= k < l < out.len() implies !((#[trigger] out[k]).item_type
                == (#[trigger] out[l]).item_type && out[k].item_id == out[l].item_id) by {
                if k == 0 {
                    assert(out[l] == remove_key(rest, t, id)[l - 1]);
                    assert(rest.contains(out[l]));
                    let w = choose|w: int| 0 <= w < rest.len() && rest[w] == out[l];
                    assert(ix[w + 1] == out[l]);
                } else {
                    assert(out[k] == remove_key(rest, t, id)[k - 1]);
                    assert(out[l] == remove_key(rest, t, id)[l - 1]);
                }
            }
        }
        assert forall|m: int|
            0 <= m < ix.len() && !((#[trigger] ix[m]).item_type == t && ix[m].item_id == id)
                implies remove_key(ix, t, id).contains(ix[m]) by {
            if ix[0].item_type == t && ix[0].item_id == id {
                assert(m >= 1);
                assert(rest[m - 1] == ix[m]);
                assert(remove_key(rest, t, id).contains(ix[m]));
            } else {
                if m == 0 {
                    assert(remove_key(ix, t, id)[0] == ix[0]);
                } else {
                    assert(rest[m - 1] == ix[m]);
                    assert(remove_key(rest, t, id).contains(ix[m]));
                    let w = choose|w: int|
                        0 <= w < remove_key(rest, t, id).len() && remove_key(rest, t, id)[w] == ix[m];
                    assert(remove_key(ix, t, id)[w + 1] == ix[m]);
                }
            }
        }
        if !(ix[0].item_type == t && ix[0].item_id == id) {
            assert forall|k: int|
                0 <= k < remove_key(ix, t, id).len() implies ix.contains(
                #[trigger] remove_key(ix, t, id)[k]) by {
                if k == 0 {
                    assert(ix[0] == remove_key(ix, t, id)[0]);
                } else {
                    assert(remove_key(ix, t, id)[k] == remove_key(rest, t, id)[k - 1]);
                    let w = choose|w: int|
                        0 <= w < rest.len() && rest[w] == remove_key(rest, t, id)[k - 1];
                    assert(ix[w + 1] == remove_key(ix, t, id)[k]);
                }
            }
        } else {
            assert forall|k: int|
                0 <= k < remove_key(ix, t, id).len() implies ix.contains(
                #[trigger] remove_key(ix, t, id)[k]) by {
                assert(remove_key(ix, t, id)[k] == remove_key(rest, t, id)[k]);
                let w = choose|w: int| 0 <= w < rest.len() && rest[w] == remove_key(rest, t, id)[k];
                assert(ix[w + 1] == remove_key(ix, t, id)[k]);
            }
        }
    }
}

/// Removing a key distributes over appending one entry at the back.
pub proof fn lemma_remove_key_push(
    ix: Seq<SearchEntryView>,
    e: SearchEntryView,
    t: ItemType,
    id: Seq<char>,
)
    ensures
        remove_key(ix.push(e), t, id) == remove_key(ix, t, id) + (if e.item_type == t && e.item_id
            == id {
            Seq::<SearchEntryView>::empty()
        } else {
            seq![e]
        }),
    decreases ix.len(),
{
    if ix.len() == 0 {
        assert(ix.push(e).len() == 1);
        assert(ix.push(e)[0] == e);
        assert(ix.push(e).drop_first() =~= Seq::<SearchEntryView>::empty());
        assert(remove_key(Seq::<SearchEntryView>::empty(), t, id) =~= Seq::<SearchEntryView>::empty());
        assert(ix =~= Seq::<SearchEntryView>::empty());
        assert(remove_key(ix, t, id) + Seq::<SearchEntryView>::empty() =~= remove_key(ix, t, id));
        if !(e.item_type == t && e.item_id == id) {
            assert(remove_key(ix.push(e), t, id) =~= seq![e] + remove_key(
                ix.push(e).drop_first(),
                t,
                id,
            ));
            assert(remove_key(ix.push(e), t, id) =~= remove_key(ix, t, id) + seq![e]);
        }
    } else {
        assert(ix.push(e).drop_first() =~= ix.drop_first().push(e));
        lemma_remove_key_push(ix.drop_first(), e, t, id);
        if ix[0].item_type == t && ix[0].item_id == id {
        } else {
            if e.item_type == t && e.item_id == id {
                assert(remove_key(ix.push(e), t, id) =~= remove_key(ix, t, id)
                    + Seq::<SearchEntryView>::empty());
            } else {
                assert(remove_key(ix.push(e), t, id) =~= remove_key(ix, t, id) + seq![e]);
            }
        }
    }
}

/// The store after creating a task: the task appended with fresh
/// timestamps, its index entry at the front of the index, the clock
/// advanced.
pub open spec fn create_task_spec(s: StoreView, id: Seq<char>, text: Seq<char>) -> StoreView {
    let t = TaskView { id: id, text: text, done: false, created_at: s.clock, updated_at: s.clock };
    StoreView {
        tasks: s.tasks.push(t),
        index: seq![entry_of_task(t)] + remove_key(s.index, ItemType::Task, id),
        clock: s.clock + 1,
        ..s
    }
}

pub proof fn lemma_create_task_wf(s: StoreView, id: Seq<char>, text: Seq<char>)
    requires
        s.wf(),
        s.schema.tasks_table,
        s.schema.search_table,
        text.len() > 0,
        !task_id_taken(s.tasks, id),
    ensures
        create_task_spec(s, id, text).wf(),
{
    let t = TaskView { id: id, text: text, done: false, created_at: s.clock, updated_at: s.clock };
    let s2 = create_task_spec(s, id, text);
    let rk = remove_key(s.index, ItemType::Task, id);
    lemma_remove_key_facts(s.index, ItemType::Task, id);
    assert(s2.tasks[s.tasks.len() as int] == t);
    assert(forall|i: int| 0 <= i < s.tasks.len() ==> s2.tasks[i] == s.tasks[i]);
    assert(s2.index[0] == entry_of_task(t));
    assert(forall|k: int| 1 <= k < s2.index.len() ==> s2.index[k] == rk[k - 1]);
    // every entry is owned
    assert forall|k: int| 0 <= k < s2.index.len() implies entry_owner_ok(s2, #[trigger] s2.index[k]) by {
        if k == 0 {
            assert(entry_of_task(s2.tasks[s.tasks.len() as int]) == s2.index[0]);
        } else {
            let e = rk[k - 1];
            assert(s.index.contains(e));
            let m = choose|m: int| 0 <= m < s.index.len() && s.index[m] == e;
            assert(entry_owner_ok(s, e));
            match e.item_type {
                ItemType::Task => {
                    let i = choose|i: int|
                        0 <= i < s.tasks.len() && entry_of_task(#[trigger] s.tasks[i]) == e;
                    assert(entry_of_task(s2.tasks[i]) == e);
                },
                ItemType::Note => {
                    assert(s2.notes == s.notes);
                },
                ItemType::Concern => {
                    assert(s2.concerns == s.concerns);
                },
            }
        }
    }
    // every task has an entry
    assert forall|i: int| 0 <= i < s2.tasks.len() implies index_has(
        s2.index,
        ItemType::Task,
        (#[trigger] s2.tasks[i]).id,
    ) by {
        if i < s.tasks.len() {
            assert(s.tasks[i].id != id);
            assert(index_has(s.index, ItemType::Task, s.tasks[i].id));
            let m = choose|m: int|
                0 <= m < s.index.len() && s.index[m].item_type == ItemType::Task
                    && s.index[m].item_id == s.tasks[i].id;
            assert(rk.contains(s.index[m]));
            let w = choose|w: int| 0 <= w < rk.len() && rk[w] == s.index[m];
            assert(s2.index[w + 1].item_type == ItemType::Task && s2.index[w + 1].item_id
                == s2.tasks[i].id);
        } else {
            assert(s2.index[0].item_type == ItemType::Task && s2.index[0].item_id == s2.tasks[i].id);
        }
    }
    // every note and concern keeps an entry
    assert forall|i: int| 0 <= i < s2.notes.len() implies index_has(
        s2.index,
        ItemType::Note,
        decimal((#[trigger] s2.notes[i]).id),
    ) by {
        let m = choose|m: int|
            0 <= m < s.index.len() && s.index[m].item_type == ItemType::Note && s.index[m].item_id
                == decimal(s.notes[i].id);
        assert(rk.contains(s.index[m]));
        let w = choose|w: int| 0 <= w < rk.len() && rk[w] == s.index[m];
        assert(s2.index[w + 1].item_type == ItemType::Note && s2.index[w + 1].item_id == decimal(
            s2.notes[i].id,
        ));
    }
    assert forall|i: int| 0 <= i < s2.concerns.len() implies index_has(
        s2.index,
        ItemType::Concern,
        (#[trigger] s2.concerns[i]).id,
    ) by {
        let m = choose|m: int|
            0 <= m < s.index.len() && s.index[m].item_type == ItemType::Concern
                && s.index[m].item_id == s.concerns[i].id;
        assert(rk.contains(s.index[m]));
        let w = choose|w: int| 0 <= w < rk.len() && rk[w] == s.index[m];
        assert(s2.index[w + 1].item_type == ItemType::Concern && s2.index[w + 1].item_id
            == s2.concerns[i].id);
    }
    // unique index keys and recency order
    assert forall|k: int, l: int| 0 <= k < l < s2.index.len() implies !((#[trigger] s2.index[k]).item_type
        == (#[trigger] s2.index[l]).item_type && s2.index[k].item_id == s2.index[l].item_id) by {
        if k >= 1 {
            assert(s2.index[k] == rk[k - 1] && s2.index[l] == rk[l - 1]);
        }
    }
    assert forall|k: int, l: int| 0 <= k < l < s2.index.len() implies (#[trigger] s2.index[k]).updated_at
        > (#[trigger] s2.index[l]).updated_at by {
        if k == 0 {
            assert(s.index.contains(rk[l - 1]));
        } else {
            assert(s2.index[k] == rk[k - 1] && s2.index[l] == rk[l - 1]);
        }
    }
    assert forall|k: int| 0 <= k < s2.index.len() implies (#[trigger] s2.index[k]).updated_at
        < s2.clock by {
        if k >= 1 {
            assert(s.index.contains(rk[k - 1]));
        }
    }
}

/// The store after updating the task at position `p`: new text, done
/// flag and `updated_at`, same identifier and `created_at`, its index
/// entry re-derived at the front, the clock advanced.
pub open spec fn update_task_spec(s: StoreView, p: int, text: Seq<char>, done: bool) -> StoreView {
    let t = TaskView {
        id: s.tasks[p].id,
        text: text,
        done: done,
        created_at: s.tasks[p].created_at,
        updated_at: s.clock,
    };
    StoreView {
        tasks: s.tasks.update(p, t),
        index: seq![entry_of_task(t)] + remove_key(s.index, ItemType::Task, s.tasks[p].id),
        clock: s.clock + 1,
        ..s
    }
}

/// The store after deleting the task at position `p`: the task removed
/// and its index entry gone.
pub open spec fn delete_task_spec(s: StoreView, p: int) -> StoreView {
    StoreView {
        tasks: s.tasks.remove(p),
        index: remove_key(s.index, ItemType::Task, s.tasks[p].id),
        ..s
    }
}

pub proof fn lemma_update_task_wf(s: StoreView, p: int, text: Seq<char>, done: bool)
    requires
        s.wf(),
        s.schema.tasks_table,
        s.schema.search_table,
        text.len() > 0,
        0 <= p < s.tasks.len(),
    ensures
        update_task_spec(s, p, text, done).wf(),
{
    let id = s.tasks[p].id;
    let s2 = update_task_spec(s, p, text, done);
    let rk = remove_key(s.index, ItemType::Task, id);
    lemma_remove_key_facts(s.index, ItemType::Task, id);
    assert(forall|i: int| 0 <= i < s.tasks.len() && i != p ==> s2.tasks[i] == s.tasks[i]);
    assert(forall|k: int| 1 <= k < s2.index.len() ==> s2.index[k] == rk[k - 1]);
    assert forall|k: int| 0 <= k < s2.index.len() implies entry_owner_ok(s2, #[trigger] s2.index[k]) by {
        if k == 0 {
            assert(entry_of_task(s2.tasks[p]) == s2.index[0]);
        } else {
            let e = rk[k - 1];
            assert(s.index.contains(e));
            let m = choose|m: int| 0 <= m < s.index.len() && s.index[m] == e;
            assert(entry_owner_ok(s, e));
            match e.item_type {
                ItemType::Task => {
                    let i = choose|i: int|
                        0 <= i < s.tasks.len() && entry_of_task(#[trigger] s.tasks[i]) == e;
                    assert(e.item_id == s.tasks[i].id);
                    assert(i != p);
                    assert(entry_of_task(s2.tasks[i]) == e);
                },
                ItemType::Note => {
                    assert(s2.notes == s.notes);
                },
                ItemType::Concern => {
                    assert(s2.concerns == s.concerns);
                },
            }
        }
    }
    assert forall|i: int| 0 <= i < s2.tasks.len() implies index_has(
        s2.index,
        ItemType::Task,
        (#[trigger] s2.tasks[i]).id,
    ) by {
        if i != p {
            assert(s.tasks[i].id != id);
            let m = choose|m: int|
                0 <= m < s.index.len() && s.index[m].item_type == ItemType::Task
                    && s.index[m].item_id == s.tasks[i].id;
            assert(rk.contains(s.index[m]));
            let w = choose|w: int| 0 <= w < rk.len() && rk[w] == s.index[m];
            assert(s2.index[w + 1].item_type == ItemType::Task && s2.index[w + 1].item_id
                == s2.tasks[i].id);
        } else {
            assert(s2.index[0].item_type == ItemType::Task && s2.index[0].item_id == s2.tasks[i].id);
        }
    }
    assert forall|i: int| 0 <= i < s2.notes.len() implies index_has(
        s2.index,
        ItemType::Note,
        decimal((#[trigger] s2.notes[i]).id),
    ) by {
        let m = choose|m: int|
            0 <= m < s.index.len() && s.index[m].item_type == ItemType::Note && s.index[m].item_id
                == decimal(s.notes[i].id);
        assert(rk.contains(s.index[m]));
        let w = choose|w: int| 0 <= w < rk.len() && rk[w] == s.index[m];
        assert(s2.index[w + 1].item_type == ItemType::Note && s2.index[w + 1].item_id == decimal(
            s2.notes[i].id,
        ));
    }
    assert forall|i: int| 0 <= i < s2.concerns.len() implies index_has(
        s2.index,
        ItemType::Concern,
        (#[trigger] s2.concerns[i]).id,
    ) by {
        let m = choose|m: int|
            0 <= m < s.index.len() && s.index[m].item_type == ItemType::Concern
                && s.index[m].item_id == s.concerns[i].id;
        assert(rk.contains(s.index[m]));
        let w = choose|w: int| 0 <= w < rk.len() && rk[w] == s.index[m];
        assert(s2.index[w + 1].item_type == ItemType::Concern && s2.index[w + 1].item_id
            == s2.concerns[i].id);
    }
    assert forall|k: int, l: int| 0 <= k < l < s2.index.len() implies !((#[trigger] s2.index[k]).item_type
        == (#[trigger] s2.index[l]).item_type && s2.index[k].item_id == s2.index[l].item_id) by {
        if k >= 1 {
            assert(s2.index[k] == rk[k - 1] && s2.index[l] == rk[l - 1]);
        }
    }
    assert forall|k: int, l: int| 0 <= k < l < s2.index.len() implies (#[trigger] s2.index[k]).updated_at
        > (#[trigger] s2.index[l]).updated_at by {
        if k == 0 {
            assert(s.index.contains(rk[l - 1]));
        } else {
            assert(s2.index[k] == rk[k - 1] && s2.index[l] == rk[l - 1]);
        }
    }
    assert forall|k: int| 0 <= k < s2.index.len() implies (#[trigger] s2.index[k]).updated_at
        < s2.clock by {
        if k >= 1 {
            assert(s.index.contains(rk[k - 1]));
        }
    }
}

pub proof fn lemma_delete_task_wf(s: StoreView, p: int)
    requires
        s.wf(),
        0 <= p < s.tasks.len(),
    ensures
        delete_task_spec(s, p).wf(),
{
    let id = s.tasks[p].id;
    let s2 = delete_task_spec(s, p);
    let rk = remove_key(s.index, ItemType::Task, id);
    lemma_remove_key_facts(s.index, ItemType::Task, id);
    assert(forall|j: int| 0 <= j < p ==> s2.tasks[j] == s.tasks[j]);
    assert(forall|j: int| p <= j < s2.tasks.len() ==> s2.tasks[j] == s.tasks[j + 1]);
    assert forall|k: int| 0 <= k < s2.index.len() implies entry_owner_ok(s2, #[trigger] s2.index[k]) by {
        let e = rk[k];
        assert(s.index.contains(e));
        let m = choose|m: int| 0 <= m < s.index.len() && s.index[m] == e;
        assert(entry_owner_ok(s, e));
        match e.item_type {
            ItemType::Task => {
                let i = choose|i: int|
                    0 <= i < s.tasks.len() && entry_of_task(#[trigger] s.tasks[i]) == e;
                assert(e.item_id == s.tasks[i].id);
                assert(i != p);
                if i < p {
                    assert(entry_of_task(s2.tasks[i]) == e);
                } else {
                    assert(entry_of_task(s2.tasks[i - 1]) == e);
                }
            },
            ItemType::Note => {
                assert(s2.notes == s.notes);
            },
            ItemType::Concern => {
                assert(s2.concerns == s.concerns);
            },
        }
    }
    assert forall|i: int| 0 <= i < s2.tasks.len() implies index_has(
        s2.index,
        ItemType::Task,
        (#[trigger] s2.tasks[i]).id,
    ) by {
        let jj = if i < p { i } else { i + 1 };
        assert(s2.tasks[i] == s.tasks[jj]);
        assert(s.tasks[jj].id != id);
        let m = choose|m: int|
            0 <= m < s.index.len() && s.index[m].item_type == ItemType::Task && s.index[m].item_id
                == s.tasks[jj].id;
        assert(rk.contains(s.index[m]));
        let w = choose|w: int| 0 <= w < rk.len() && rk[w] == s.index[m];
        assert(s2.index[w].item_type == ItemType::Task && s2.index[w].item_id == s2.tasks[i].id);
    }
    assert forall|i: int| 0 <= i < s2.notes.len() implies index_has(
        s2.index,
        ItemType::Note,
        decimal((#[trigger] s2.notes[i]).id),
    ) by {
        let m = choose|m: int|
            0 <= m < s.index.len() && s.index[m].item_type == ItemType::Note && s.index[m].item_id
                == decimal(s.notes[i].id);
        assert(rk.contains(s.index[m]));
        let w = choose|w: int| 0 <= w < rk.len() && rk[w] == s.index[m];
        assert(s2.index[w].item_type == ItemType::Note && s2.index[w].item_id == decimal(
            s2.notes[i].id,
        ));
    }
    assert forall|i: int| 0 <= i < s2.concerns.len() implies index_has(
        s2.index,
        ItemType::Concern,
        (#[trigger] s2.concerns[i]).id,
    ) by {
        let m = choose|m: int|
            0 <= m < s.index.len() && s.index[m].item_type == ItemType::Concern
                && s.index[m].item_id == s.concerns[i].id;
        assert(rk.contains(s.index[m]));
        let w = choose|w: int| 0 <= w < rk.len() && rk[w] == s.index[m];
        assert(s2.index[w].item_type == ItemType::Concern && s2.index[w].item_id
            == s2.concerns[i].id);
    }
    assert forall|k: int| 0 <= k < s2.index.len() implies (#[trigger] s2.index[k]).updated_at
        < s2.clock by {
        assert(s.index.contains(rk[k]));
    }
}

/// The title a created note stores: before the schema has a title
/// column there is none; afterwards the supplied title, or the default
/// when none is supplied.
pub open spec fn stored_note_title(s: StoreView, title: Option<Seq<char>>) -> Option<Seq<char>> {
    if s.schema.note_title_column {
        match title {
            Some(t) => Some(t),
            None => Some(default_note_title()),
        }
    } else {
        None
    }
}

/// Why a supplied note title is rejected: supplied before the schema
/// has a title column, or empty.
pub open spec fn note_title_fault(s: StoreView, title: Option<Seq<char>>) -> Option<StoreError> {
    match title {
        Some(t) => if !s.schema.note_title_column {
            Some(StoreError::NoTitleColumn)
        } else if t.len() == 0 {
            Some(StoreError::EmptyTitle)
        } else {
            None
        },
        None => None,
    }
}

/// The view of an optional borrowed title argument.
pub open spec fn title_arg_view(title: Option<&str>) -> Option<Seq<char>> {
    match title {
        Some(t) => Some(t@),
        None => None,
    }
}

/// The store after creating a note: the note appended under the next
/// sequential identifier with fresh timestamps, its index entry at the
/// front, the identifier counter and the clock advanced.
pub open spec fn create_note_spec(s: StoreView, title: Option<Seq<char>>, content: Seq<char>) -> StoreView {
    let n = NoteView {
        id: s.next_note_id,
        title: stored_note_title(s, title),
        content: content,
        created_at: s.clock,
        updated_at: s.clock,
    };
    StoreView {
        notes: s.notes.push(n),
        index: seq![entry_of_note(n)] + remove_key(s.index, ItemType::Note, decimal(s.next_note_id)),
        next_note_id: s.next_note_id + 1,
        clock: s.clock + 1,
        ..s
    }
}

/// The store after updating the note at position `p`: new content, the
/// supplied title (or the stored one kept when none is supplied), same
/// identifier and `created_at`, `updated_at` advanced, the index entry
/// re-derived at the front.
pub open spec fn update_note_spec(s: StoreView, p: int, title: Option<Seq<char>>, content: Seq<char>) -> StoreView {
    let n = NoteView {
        id: s.notes[p].id,
        title: match title {
            Some(t) => Some(t),
            None => s.notes[p].title,
        },
        content: content,
        created_at: s.notes[p].created_at,
        updated_at: s.clock,
    };
    StoreView {
        notes: s.notes.update(p, n),
        index: seq![entry_of_note(n)] + remove_key(s.index, ItemType::Note, decimal(s.notes[p].id)),
        clock: s.clock + 1,
        ..s
    }
}

/// The store after deleting the note at position `p`.
pub open spec fn delete_note_spec(s: StoreView, p: int) -> StoreView {
    StoreView {
        notes: s.notes.remove(p),
        index: remove_key(s.index, ItemType::Note, decimal(s.notes[p].id)),
        ..s
    }
}

proof fn lemma_decimal_distinct(a: nat, b: nat)
    requires
        a != b,
    ensures
        decimal(a) != decimal(b),
{
    if decimal(a) == decimal(b) {
        lemma_decimal_injective(a, b);
    }
}

proof fn lemma_default_note_title_nonempty()
    ensures
        default_note_title().len() > 0,
{
    reveal_strlit("Untitled Note");
}

pub proof fn lemma_create_note_wf(s: StoreView, title: Option<Seq<char>>, content: Seq<char>)
    requires
        s.wf(),
        s.schema.notes_table,
        s.schema.search_table,
        note_title_fault(s, title) is None,
    ensures
        create_note_spec(s, title, content).wf(),
{
    let s2 = create_note_spec(s, title, content);
    let nid = s.next_note_id;
    let key = decimal(nid);
    let rk = remove_key(s.index, ItemType::Note, key);
    let p = s.notes.len() as int;
    lemma_default_note_title_nonempty();
    lemma_remove_key_facts(s.index, ItemType::Note, key);
    assert(forall|i: int| 0 <= i < s.notes.len() ==> s2.notes[i] == s.notes[i]);
    assert(forall|k: int| 1 <= k < s2.index.len() ==> s2.index[k] == rk[k - 1]);
    assert(s2.index[0] == entry_of_note(s2.notes[p]));
    assert forall|k: int| 0 <= k < s2.index.len() implies entry_owner_ok(s2, #[trigger] s2.index[k]) by {
        if k == 0 {
            assert(entry_of_note(s2.notes[p]) == s2.index[0]);
        } else {
            let e = rk[k - 1];
            assert(s.index.contains(e));
            let m = choose|m: int| 0 <= m < s.index.len() && s.index[m] == e;
            assert(entry_owner_ok(s, e));
            match e.item_type {
                ItemType::Note => {
                    let i = choose|i: int|
                        0 <= i < s.notes.len() && entry_of_note(#[trigger] s.notes[i]) == e;
                    assert(entry_of_note(s2.notes[i]) == e);
                },
                ItemType::Task => {
                    assert(s2.tasks == s.tasks);
                },
                ItemType::Concern => {
                    assert(s2.concerns == s.concerns);
                },
            }
        }
    }
    assert forall|i: int| 0 <= i < s2.notes.len() implies index_has(
        s2.index,
        ItemType::Note,
        decimal((#[trigger] s2.notes[i]).id),
    ) by {
        if i < s.notes.len() {
            lemma_decimal_distinct(s.notes[i].id, nid);
            let m = choose|m: int|
                0 <= m < s.index.len() && s.index[m].item_type == ItemType::Note
                    && s.index[m].item_id == decimal(s.notes[i].id);
            assert(rk.contains(s.index[m]));
            let w = choose|w: int| 0 <= w < rk.len() && rk[w] == s.index[m];
            assert(s2.index[w + 1].item_type == ItemType::Note && s2.index[w + 1].item_id
                == decimal(s2.notes[i].id));
        } else {
            assert(s2.index[0].item_type == ItemType::Note && s2.index[0].item_id == decimal(
                s2.notes[i].id,
            ));
        }
    }
    assert forall|i: int| 0 <= i < s2.tasks.len() implies index_has(
        s2.index,
        ItemType::Task,
        (#[trigger] s2.tasks[i]).id,
    ) by {
        let m = choose|m: int|
            0 <= m < s.index.len() && s.index[m].item_type == ItemType::Task && s.index[m].item_id
                == s.tasks[i].id;
        assert(rk.contains(s.index[m]));
        let w = choose|w: int| 0 <= w < rk.len() && rk[w] == s.index[m];
        assert(s2.index[w + 1].item_type == ItemType::Task && s2.index[w + 1].item_id
            == s2.tasks[i].id);
    }
    assert forall|i: int| 0 <= i < s2.concerns.len() implies index_has(
        s2.index,
        ItemType::Concern,
        (#[trigger] s2.concerns[i]).id,
    ) by {
        let m = choose|m: int|
            0 <= m < s.index.len() && s.index[m].item_type == ItemType::Concern
                && s.index[m].item_id == s.concerns[i].id;
        assert(rk.contains(s.index[m]));
        let w = choose|w: int| 0 <= w < rk.len() && rk[w] == s.index[m];
        assert(s2.index[w + 1].item_type == ItemType::Concern && s2.index[w + 1].item_id
            == s2.concerns[i].id);
    }
    assert forall|k: int, l: int| 0 <= k < l < s2.index.len() implies !((#[trigger] s2.index[k]).item_type
        == (#[trigger] s2.index[l]).item_type && s2.index[k].item_id == s2.index[l].item_id) by {
        if k >= 1 {
            assert(s2.index[k] == rk[k - 1] && s2.index[l] == rk[l - 1]);
        } else {
            assert(s2.index[l] == rk[l - 1]);
        }
    }
    assert forall|k: int, l: int| 0 <= k < l < s2.index.len() implies (#[trigger] s2.index[k]).updated_at
        > (#[trigger] s2.index[l]).updated_at by {
        if k == 0 {
            assert(s.index.contains(rk[l - 1]));
        } else {
            assert(s2.index[k] == rk[k - 1] && s2.index[l] == rk[l - 1]);
        }
    }
    assert forall|k: int| 0 <= k < s2.index.len() implies (#[trigger] s2.index[k]).updated_at
        < s2.clock by {
        if k >= 1 {
            assert(s.index.contains(rk[k - 1]));
        }
    }
}

pub proof fn lemma_update_note_wf(s: StoreView, p: int, title: Option<Seq<char>>, content: Seq<char>)
    requires
        s.wf(),
        s.schema.notes_table,
        s.schema.search_table,
        note_title_fault(s, title) is None,
        0 <= p < s.notes.len(),
    ensures
        update_note_spec(s, p, title, content).wf(),
{
    let s2 = update_note_spec(s, p, title, content);
    let nid = s.notes[p].id;
    let key = decimal(nid);
    let rk = remove_key(s.index, ItemType::Note, key);
    lemma_remove_key_facts(s.index, ItemType::Note, key);
    assert(forall|i: int| 0 <= i < s.notes.len() && i != p ==> s2.notes[i] == s.notes[i]);
    assert(forall|k: int| 1 <= k < s2.index.len() ==> s2.index[k] == rk[k - 1]);
    assert(s2.index[0] == entry_of_note(s2.notes[p]));
    assert forall|k: int| 0 <= k < s2.index.len() implies entry_owner_ok(s2, #[trigger] s2.index[k]) by {
        if k == 0 {
            assert(entry_of_note(s2.notes[p]) == s2.index[0]);
        } else {
            let e = rk[k - 1];
            assert(s.index.contains(e));
            let m = choose|m: int| 0 <= m < s.index.len() && s.index[m] == e;
            assert(entry_owner_ok(s, e));
            match e.item_type {
                ItemType::Note => {
                    let i = choose|i: int|
                        0 <= i < s.notes.len() && entry_of_note(#[trigger] s.notes[i]) == e;
                    assert(e.item_id == decimal(s.notes[i].id));
                    assert(i != p);
                    assert(entry_of_note(s2.notes[i]) == e);
                },
                ItemType::Task => {
                    assert(s2.tasks == s.tasks);
                },
                ItemType::Concern => {
                    assert(s2.concerns == s.concerns);
                },
            }
        }
    }
    assert forall|i: int| 0 <= i < s2.notes.len() implies index_has(
        s2.index,
        ItemType::Note,
        decimal((#[trigger] s2.notes[i]).id),
    ) by {
        if i != p {
            assert(s.notes[i].id != nid);
            lemma_decimal_distinct(s.notes[i].id, nid);
            let m = choose|m: int|
                0 <= m < s.index.len() && s.index[m].item_type == ItemType::Note
                    && s.index[m].item_id == decimal(s.notes[i].id);
            assert(rk.contains(s.index[m]));
            let w = choose|w: int| 0 <= w < rk.len() && rk[w] == s.index[m];
            assert(s2.index[w + 1].item_type == ItemType::Note && s2.index[w + 1].item_id
                == decimal(s2.notes[i].id));
        } else {
            assert(s2.index[0].item_type == ItemType::Note && s2.index[0].item_id == decimal(
                s2.notes[i].id,
            ));
        }
    }
    assert forall|i: int| 0 <= i < s2.tasks.len() implies index_has(
        s2.index,
        ItemType::Task,
        (#[trigger] s2.tasks[i]).id,
    ) by {
        let m = choose|m: int|
            0 <= m < s.index.len() && s.index[m].item_type == ItemType::Task && s.index[m].item_id
                == s.tasks[i].id;
        assert(rk.contains(s.index[m]));
        let w = choose|w: int| 0 <= w < rk.len() && rk[w] == s.index[m];
        assert(s2.index[w + 1].item_type == ItemType::Task && s2.index[w + 1].item_id
            == s2.tasks[i].id);
    }
    assert forall|i: int| 0 <= i < s2.concerns.len() implies index_has(
        s2.index,
        ItemType::Concern,
        (#[trigger] s2.concerns[i]).id,
    ) by {
        let m = choose|m: int|
            0 <= m < s.index.len() && s.index[m].item_type == ItemType::Concern
                && s.index[m].item_id == s.concerns[i].id;
        assert(rk.contains(s.index[m]));
        let w = choose|w: int| 0 <= w < rk.len() && rk[w] == s.index[m];
        assert(s2.index[w + 1].item_type == ItemType::Concern && s2.index[w + 1].item_id
            == s2.concerns[i].id);
    }
    assert forall|k: int, l: int| 0 <= k < l < s2.index.len() implies !((#[trigger] s2.index[k]).item_type
        == (#[trigger] s2.index[l]).item_type && s2.index[k].item_id == s2.index[l].item_id) by {
        if k >= 1 {
            assert(s2.index[k] == rk[k - 1] && s2.index[l] == rk[l - 1]);
        } else {
            assert(s2.index[l] == rk[l - 1]);
        }
    }
    assert forall|k: int, l: int| 0 <= k < l < s2.index.len() implies (#[trigger] s2.index[k]).updated_at
        > (#[trigger] s2.index[l]).updated_at by {
        if k == 0 {
            assert(s.index.contains(rk[l - 1]));
        } else {
            assert(s2.index[k] == rk[k - 1] && s2.index[l] == rk[l - 1]);
        }
    }
    assert forall|k: int| 0 <= k < s2.index.len() implies (#[trigger] s2.index[k]).updated_at
        < s2.clock by {
        if k >= 1 {
            assert(s.index.contains(rk[k - 1]));
        }
    }
}

pub proof fn lemma_delete_note_wf(s: StoreView, p: int)
    requires
        s.wf(),
        0 <= p < s.notes.len(),
    ensures
        delete_note_spec(s, p).wf(),
{
    let s2 = delete_note_spec(s, p);
    let nid = s.notes[p].id;
    let key = decimal(nid);
    let rk = remove_key(s.index, ItemType::Note, key);
    lemma_remove_key_facts(s.index, ItemType::Note, key);
    assert(forall|j: int| 0 <= j < p ==> s2.notes[j] == s.notes[j]);
    assert(forall|j: int| p <= j < s2.notes.len() ==> s2.notes[j] == s.notes[j + 1]);
    assert forall|k: int| 0 <= k < s2.index.len() implies entry_owner_ok(s2, #[trigger] s2.index[k]) by {
        let e = rk[k];
        assert(s.index.contains(e));
        let m = choose|m: int| 0 <= m < s.index.len() && s.index[m] == e;
        assert(entry_owner_ok(s, e));
        match e.item_type {
            ItemType::Note => {
                let i = choose|i: int|
                    0 <= i < s.notes.len() && entry_of_note(#[trigger] s.notes[i]) == e;
                assert(e.item_id == decimal(s.notes[i].id));
                assert(i != p);
                if i < p {
                    assert(entry_of_note(s2.notes[i]) == e);
                } else {
                    assert(entry_of_note(s2.notes[i - 1]) == e);
                }
            },
            ItemType::Task => {
                assert(s2.tasks == s.tasks);
            },
            ItemType::Concern => {
                assert(s2.concerns == s.concerns);
            },
        }
    }
    assert forall|i: int| 0 <= i < s2.notes.len() implies index_has(
        s2.index,
        ItemType::Note,
        decimal((#[trigger] s2.notes[i]).id),
    ) by {
        let jj = if i < p {
            i
        } else {
            i + 1
        };
        assert(s2.notes[i] == s.notes[jj]);
        assert(s.notes[jj].id != nid);
        lemma_decimal_distinct(s.notes[jj].id, nid);
        let m = choose|m: int|
            0 <= m < s.index.len() && s.index[m].item_type == ItemType::Note && s.index[m].item_id
                == decimal(s.notes[jj].id);
        assert(rk.contains(s.index[m]));
        let w = choose|w: int| 0 <= w < rk.len() && rk[w] == s.index[m];
        assert(s2.index[w].item_type == ItemType::Note && s2.index[w].item_id == decimal(
            s2.notes[i].id,
        ));
    }
    assert forall|i: int| 0 <= i < s2.tasks.len() implies index_has(
        s2.index,
        ItemType::Task,
        (#[trigger] s2.tasks[i]).id,
    ) by {
        let m = choose|m: int|
            0 <= m < s.index.len() && s.index[m].item_type == ItemType::Task && s.index[m].item_id
                == s.tasks[i].id;
        assert(rk.contains(s.index[m]));
        let w = choose|w: int| 0 <= w < rk.len() && rk[w] == s.index[m];
        assert(s2.index[w].item_type == ItemType::Task && s2.index[w].item_id == s2.tasks[i].id);
    }
    assert forall|i: int| 0 <= i < s2.concerns.len() implies index_has(
        s2.index,
        ItemType::Concern,
        (#[trigger] s2.concerns[i]).id,
    ) by {
        let m = choose|m: int|
            0 <= m < s.index.len() && s.index[m].item_type == ItemType::Concern
                && s.index[m].item_id == s.concerns[i].id;
        assert(rk.contains(s.index[m]));
        let w = choose|w: int| 0 <= w < rk.len() && rk[w] == s.index[m];
        assert(s2.index[w].item_type == ItemType::Concern && s2.index[w].item_id
            == s2.concerns[i].id);
    }
    assert forall|k: int| 0 <= k < s2.index.len() implies (#[trigger] s2.index[k]).updated_at
        < s2.clock by {
        assert(s.index.contains(rk[k]));
    }
}

/// The store after creating a concern.
pub open spec fn create_concern_spec(
    s: StoreView,
    id: Seq<char>,
    text: Seq<char>,
    severity: Severity,
    status: Status,
) -> StoreView {
    let t = ConcernView {
        id: id,
        text: text,
        severity: severity,
        status: status,
        created_at: s.clock,
        updated_at: s.clock,
    };
    StoreView {
        concerns: s.concerns.push(t),
        index: seq![entry_of_concern(t)] + remove_key(s.index, ItemType::Concern, id),
        clock: s.clock + 1,
        ..s
    }
}

/// The store after updating the concern at position `p`: new text,
/// severity, status and `updated_at`, same identifier and `created_at`,
/// its index entry re-derived at the front.
pub open spec fn update_concern_spec(
    s: StoreView,
    p: int,
    text: Seq<char>,
    severity: Severity,
    status: Status,
) -> StoreView {
    let t = ConcernView {
        id: s.concerns[p].id,
        text: text,
        severity: severity,
        status: status,
        created_at: s.concerns[p].created_at,
        updated_at: s.clock,
    };
    StoreView {
        concerns: s.concerns.update(p, t),
        index: seq![entry_of_concern(t)] + remove_key(s.index, ItemType::Concern, s.concerns[p].id),
        clock: s.clock + 1,
        ..s
    }
}

/// The store after deleting the concern at position `p`.
pub open spec fn delete_concern_spec(s: StoreView, p: int) -> StoreView {
    StoreView {
        concerns: s.concerns.remove(p),
        index: remove_key(s.index, ItemType::Concern, s.concerns[p].id),
        ..s
    }
}

pub proof fn lemma_create_concern_wf(
    s: StoreView,
    id: Seq<char>,
    text: Seq<char>,
    severity: Severity,
    status: Status,
)
    requires
        s.wf(),
        s.schema.concerns_table,
        s.schema.search_table,
        text.len() > 0,
        !concern_id_taken(s.concerns, id),
    ensures
        create_concern_spec(s, id, text, severity, status).wf(),
{
    let t = ConcernView {
        id: id,
        text: text,
        severity: severity,
        status: status,
        created_at: s.clock,
        updated_at: s.clock,
    };
    let s2 = create_concern_spec(s, id, text, severity, status);
    let rk = remove_key(s.index, ItemType::Concern, id);
    lemma_remove_key_facts(s.index, ItemType::Concern, id);
    assert(s2.concerns[s.concerns.len() as int] == t);
    assert(forall|i: int| 0 <= i < s.concerns.len() ==> s2.concerns[i] == s.concerns[i]);
    assert(s2.index[0] == entry_of_concern(t));
    assert(forall|k: int| 1 <= k < s2.index.len() ==> s2.index[k] == rk[k - 1]);
    // every entry is owned
    assert forall|k: int| 0 <= k < s2.index.len() implies entry_owner_ok(s2, #[trigger] s2.index[k]) by {
        if k == 0 {
            assert(entry_of_concern(s2.concerns[s.concerns.len() as int]) == s2.index[0]);
        } else {
            let e = rk[k - 1];
            assert(s.index.contains(e));
            let m = choose|m: int| 0 <= m < s.index.len() && s.index[m] == e;
            assert(entry_owner_ok(s, e));
            match e.item_type {
                ItemType::Concern => {
                    let i = choose|i: int|
                        0 <= i < s.concerns.len() && entry_of_concern(#[trigger] s.concerns[i]) == e;
                    assert(entry_of_concern(s2.concerns[i]) == e);
                },
                ItemType::Note => {
                    assert(s2.notes == s.notes);
                },
                ItemType::Task => {
                    assert(s2.tasks == s.tasks);
                },
            }
        }
    }
    // every task has an entry
    assert forall|i: int| 0 <= i < s2.concerns.len() implies index_has(
        s2.index,
        ItemType::Concern,
        (#[trigger] s2.concerns[i]).id,
    ) by {
        if i < s.concerns.len() {
            assert(s.concerns[i].id != id);
            assert(index_has(s.index, ItemType::Concern, s.concerns[i].id));
            let m = choose|m: int|
                0 <= m < s.index.len() && s.index[m].item_type == ItemType::Concern
                    && s.index[m].item_id == s.concerns[i].id;
            assert(rk.contains(s.index[m]));
            let w = choose|w: int| 0 <= w < rk.len() && rk[w] == s.index[m];
            assert(s2.index[w + 1].item_type == ItemType::Concern && s2.index[w + 1].item_id
                == s2.concerns[i].id);
        } else {
            assert(s2.index[0].item_type == ItemType::Concern && s2.index[0].item_id == s2.concerns[i].id);
        }
    }
    // every note and concern keeps an entry
    assert forall|i: int| 0 <= i < s2.notes.len() implies index_has(
        s2.index,
        ItemType::Note,
        decimal((#[trigger] s2.notes[i]).id),
    ) by {
        let m = choose|m: int|
            0 <= m < s.index.len() && s.index[m].item_type == ItemType::Note && s.index[m].item_id
                == decimal(s.notes[i].id);
        assert(rk.contains(s.index[m]));
        let w = choose|w: int| 0 <= w < rk.len() && rk[w] == s.index[m];
        assert(s2.index[w + 1].item_type == ItemType::Note && s2.index[w + 1].item_id == decimal(
            s2.notes[i].id,
        ));
    }
    assert forall|i: int| 0 <= i < s2.tasks.len() implies index_has(
        s2.index,
        ItemType::Task,
        (#[trigger] s2.tasks[i]).id,
    ) by {
        let m = choose|m: int|
            0 <= m < s.index.len() && s.index[m].item_type == ItemType::Task
                && s.index[m].item_id == s.tasks[i].id;
        assert(rk.contains(s.index[m]));
        let w = choose|w: int| 0 <= w < rk.len() && rk[w] == s.index[m];
        assert(s2.index[w + 1].item_type == ItemType::Task && s2.index[w + 1].item_id
            == s2.tasks[i].id);
    }
    // unique index keys and recency order
    assert forall|k: int, l: int| 0 <= k < l < s2.index.len() implies !((#[trigger] s2.index[k]).item_type
        == (#[trigger] s2.index[l]).item_type && s2.index[k].item_id == s2.index[l].item_id) by {
        if k >= 1 {
            assert(s2.index[k] == rk[k - 1] && s2.index[l] == rk[l - 1]);
        }
    }
    assert forall|k: int, l: int| 0 <= k < l < s2.index.len() implies (#[trigger] s2.index[k]).updated_at
        > (#[trigger] s2.index[l]).updated_at by {
        if k == 0 {
            assert(s.index.contains(rk[l - 1]));
        } else {
            assert(s2.index[k] == rk[k - 1] && s2.index[l] == rk[l - 1]);
        }
    }
    assert forall|k: int| 0 <= k < s2.index.len() implies (#[trigger] s2.index[k]).updated_at
        < s2.clock by {
        if k >= 1 {
            assert(s.index.contains(rk[k - 1]));
        }
    }
}

pub proof fn lemma_update_concern_wf(
    s: StoreView,
    p: int,
    text: Seq<char>,
    severity: Severity,
    status: Status,
)
    requires
        s.wf(),
        s.schema.concerns_table,
        s.schema.search_table,
        text.len() > 0,
        0 <= p < s.concerns.len(),
    ensures
        update_concern_spec(s, p, text, severity, status).wf(),
{
    let id = s.concerns[p].id;
    let s2 = update_concern_spec(s, p, text, severity, status);
    let rk = remove_key(s.index, ItemType::Concern, id);
    lemma_remove_key_facts(s.index, ItemType::Concern, id);
    assert(forall|i: int| 0 <= i < s.concerns.len() && i != p ==> s2.concerns[i] == s.concerns[i]);
    assert(forall|k: int| 1 <= k < s2.index.len() ==> s2.index[k] == rk[k - 1]);
    assert forall|k: int| 0 <= k < s2.index.len() implies entry_owner_ok(s2, #[trigger] s2.index[k]) by {
        if k == 0 {
            assert(entry_of_concern(s2.concerns[p]) == s2.index[0]);
        } else {
            let e = rk[k - 1];
            assert(s.index.contains(e));
            let m = choose|m: int| 0 <= m < s.index.len() && s.index[m] == e;
            assert(entry_owner_ok(s, e));
            match e.item_type {
                ItemType::Concern => {
                    let i = choose|i: int|
                        0 <= i < s.concerns.len() && entry_of_concern(#[trigger] s.concerns[i]) == e;
                    assert(e.item_id == s.concerns[i].id);
                    assert(i != p);
                    assert(entry_of_concern(s2.concerns[i]) == e);
                },
                ItemType::Note => {
                    assert(s2.notes == s.notes);
                },
                ItemType::Task => {
                    assert(s2.tasks == s.tasks);
                },
            }
        }
    }
    assert forall|i: int| 0 <= i < s2.concerns.len() implies index_has(
        s2.index,
        ItemType::Concern,
        (#[trigger] s2.concerns[i]).id,
    ) by {
        if i != p {
            assert(s.concerns[i].id != id);
            let m = choose|m: int|
                0 <= m < s.index.len() && s.index[m].item_type == ItemType::Concern
                    && s.index[m].item_id == s.concerns[i].id;
            assert(rk.contains(s.index[m]));
            let w = choose|w: int| 0 <= w < rk.len() && rk[w] == s.index[m];
            assert(s2.index[w + 1].item_type == ItemType::Concern && s2.index[w + 1].item_id
                == s2.concerns[i].id);
        } else {
            assert(s2.index[0].item_type == ItemType::Concern && s2.index[0].item_id == s2.concerns[i].id);
        }
    }
    assert forall|i: int| 0 <= i < s2.notes.len() implies index_has(
        s2.index,
        ItemType::Note,
        decimal((#[trigger] s2.notes[i]).id),
    ) by {
        let m = choose|m: int|
            0 <= m < s.index.len() && s.index[m].item_type == ItemType::Note && s.index[m].item_id
                == decimal(s.notes[i].id);
        assert(rk.contains(s.index[m]));
        let w = choose|w: int| 0 <= w < rk.len() && rk[w] == s.index[m];
        assert(s2.index[w + 1].item_type == ItemType::Note && s2.index[w + 1].item_id == decimal(
            s2.notes[i].id,
        ));
    }
    assert forall|i: int| 0 <= i < s2.tasks.len() implies index_has(
        s2.index,
        ItemType::Task,
        (#[trigger] s2.tasks[i]).id,
    ) by {
        let m = choose|m: int|
            0 <= m < s.index.len() && s.index[m].item_type == ItemType::Task
                && s.index[m].item_id == s.tasks[i].id;
        assert(rk.contains(s.index[m]));
        let w = choose|w: int| 0 <= w < rk.len() && rk[w] == s.index[m];
        assert(s2.index[w + 1].item_type == ItemType::Task && s2.index[w + 1].item_id
            == s2.tasks[i].id);
    }
    assert forall|k: int, l: int| 0 <= k < l < s2.index.len() implies !((#[trigger] s2.index[k]).item_type
        == (#[trigger] s2.index[l]).item_type && s2.index[k].item_id == s2.index[l].item_id) by {
        if k >= 1 {
            assert(s2.index[k] == rk[k - 1] && s2.index[l] == rk[l - 1]);
        }
    }
    assert forall|k: int, l: int| 0 <= k < l < s2.index.len() implies (#[trigger] s2.index[k]).updated_at
        > (#[trigger] s2.index[l]).updated_at by {
        if k == 0 {
            assert(s.index.contains(rk[l - 1]));
        } else {
            assert(s2.index[k] == rk[k - 1] && s2.index[l] == rk[l - 1]);
        }
    }
    assert forall|k: int| 0 <= k < s2.index.len() implies (#[trigger] s2.index[k]).updated_at
        < s2.clock by {
        if k >= 1 {
            assert(s.index.contains(rk[k - 1]));
        }
    }
}

pub proof fn lemma_delete_concern_wf(s: StoreView, p: int)
    requires
        s.wf(),
        0 <= p < s.concerns.len(),
    ensures
        delete_concern_spec(s, p).wf(),
{
    let id = s.concerns[p].id;
    let s2 = delete_concern_spec(s, p);
    let rk = remove_key(s.index, ItemType::Concern, id);
    lemma_remove_key_facts(s.index, ItemType::Concern, id);
    assert(forall|j: int| 0 <= j < p ==> s2.concerns[j] == s.concerns[j]);
    assert(forall|j: int| p <= j < s2.concerns.len() ==> s2.concerns[j] == s.concerns[j + 1]);
    assert forall|k: int| 0 <= k < s2.index.len() implies entry_owner_ok(s2, #[trigger] s2.index[k]) by {
        let e = rk[k];
        assert(s.index.contains(e));
        let m = choose|m: int| 0 <= m < s.index.len() && s.index[m] == e;
        assert(entry_owner_ok(s, e));
        match e.item_type {
            ItemType::Concern => {
                let i = choose|i: int|
                    0 <= i < s.concerns.len() && entry_of_concern(#[trigger] s.concerns[i]) == e;
                assert(e.item_id == s.concerns[i].id);
                assert(i != p);
                if i < p {
                    assert(entry_of_concern(s2.concerns[i]) == e);
                } else {
                    assert(entry_of_concern(s2.concerns[i - 1]) == e);
                }
            },
            ItemType::Note => {
                assert(s2.notes == s.notes);
            },
            ItemType::Task => {
                assert(s2.tasks == s.tasks);
            },
        }
    }
    assert forall|i: int| 0 <= i < s2.concerns.len() implies index_has(
        s2.index,
        ItemType::Concern,
        (#[trigger] s2.concerns[i]).id,
    ) by {
        let jj = if i < p { i } else { i + 1 };
        assert(s2.concerns[i] == s.concerns[jj]);
        assert(s.concerns[jj].id != id);
        let m = choose|m: int|
            0 <= m < s.index.len() && s.index[m].item_type == ItemType::Concern && s.index[m].item_id
                == s.concerns[jj].id;
        assert(rk.contains(s.index[m]));
        let w = choose|w: int| 0 <= w < rk.len() && rk[w] == s.index[m];
        assert(s2.index[w].item_type == ItemType::Concern && s2.index[w].item_id == s2.concerns[i].id);
    }
    assert forall|i: int| 0 <= i < s2.notes.len() implies index_has(
        s2.index,
        ItemType::Note,
        decimal((#[trigger] s2.notes[i]).id),
    ) by {
        let m = choose|m: int|
            0 <= m < s.index.len() && s.index[m].item_type == ItemType::Note && s.index[m].item_id
                == decimal(s.notes[i].id);
        assert(rk.contains(s.index[m]));
        let w = choose|w: int| 0 <= w < rk.len() && rk[w] == s.index[m];
        assert(s2.index[w].item_type == ItemType::Note && s2.index[w].item_id == decimal(
            s2.notes[i].id,
        ));
    }
    assert forall|i: int| 0 <= i < s2.tasks.len() implies index_has(
        s2.index,
        ItemType::Task,
        (#[trigger] s2.tasks[i]).id,
    ) by {
        let m = choose|m: int|
            0 <= m < s.index.len() && s.index[m].item_type == ItemType::Task
                && s.index[m].item_id == s.tasks[i].id;
        assert(rk.contains(s.index[m]));
        let w = choose|w: int| 0 <= w < rk.len() && rk[w] == s.index[m];
        assert(s2.index[w].item_type == ItemType::Task && s2.index[w].item_id
            == s2.tasks[i].id);
    }
    assert forall|k: int| 0 <= k < s2.index.len() implies (#[trigger] s2.index[k]).updated_at
        < s2.clock by {
        assert(s.index.contains(rk[k]));
    }
}

/// The identifiers under which an item type appears in the index.
pub open spec fn index_ids_of(ix: Seq<SearchEntryView>, t: ItemType) -> Set<Seq<char>> {
    Set::new(|id: Seq<char>| index_has(ix, t, id))
}

/// The identifiers of the live entities of an item type (in decimal
/// string form for notes).
pub open spec fn live_ids_of(s: StoreView, t: ItemType) -> Set<Seq<char>> {
    match t {
        ItemType::Task => Set::new(|id: Seq<char>| task_id_taken(s.tasks, id)),
        ItemType::Note => Set::new(
            |id: Seq<char>| exists|i: int| 0 <= i < s.notes.len() && decimal((#[trigger] s.notes[i]).id) == id,
        ),
        ItemType::Concern => Set::new(|id: Seq<char>| concern_id_taken(s.concerns, id)),
    }
}

/// Law: in every well-formed store — and every operation of the store
/// ensures well-formedness — the set of index keys of each item type
/// equals the set of live entity identifiers of that type: no orphaned
/// entry, no unindexed entity.
pub proof fn lemma_index_matches_live(s: StoreView, t: ItemType)
    requires
        s.wf(),
    ensures
        index_ids_of(s.index, t) == live_ids_of(s, t),
{
    assert forall|id: Seq<char>| index_ids_of(s.index, t).contains(id) implies live_ids_of(
        s,
        t,
    ).contains(id) by {
        let k = choose|k: int|
            0 <= k < s.index.len() && s.index[k].item_type == t && s.index[k].item_id == id;
        assert(entry_owner_ok(s, s.index[k]));
        match t {
            ItemType::Task => {
                let i = choose|i: int|
                    0 <= i < s.tasks.len() && entry_of_task(#[trigger] s.tasks[i]) == s.index[k];
                assert(s.tasks[i].id == id);
            },
            ItemType::Note => {
                let i = choose|i: int|
                    0 <= i < s.notes.len() && entry_of_note(#[trigger] s.notes[i]) == s.index[k];
                assert(decimal(s.notes[i].id) == id);
            },
            ItemType::Concern => {
                let i = choose|i: int|
                    0 <= i < s.concerns.len() && entry_of_concern(#[trigger] s.concerns[i])
                        == s.index[k];
                assert(s.concerns[i].id == id);
            },
        }
    }
    assert forall|id: Seq<char>| live_ids_of(s, t).contains(id) implies index_ids_of(
        s.index,
        t,
    ).contains(id) by {
        match t {
            ItemType::Task => {
                let i = choose|i: int| 0 <= i < s.tasks.len() && (#[trigger] s.tasks[i]).id == id;
                assert(index_has(s.index, ItemType::Task, s.tasks[i].id));
            },
            ItemType::Note => {
                let i = choose|i: int|
                    0 <= i < s.notes.len() && decimal((#[trigger] s.notes[i]).id) == id;
                assert(index_has(s.index, ItemType::Note, decimal(s.notes[i].id)));
            },
            ItemType::Concern => {
                let i = choose|i: int|
                    0 <= i < s.concerns.len() && (#[trigger] s.concerns[i]).id == id;
                assert(index_has(s.index, ItemType::Concern, s.concerns[i].id));
            },
        }
    }
    assert(index_ids_of(s.index, t) =~= live_ids_of(s, t));
}

/// The bootstrap step run unconditionally at the start of every
/// migration run: ensure the ledger table itself exists.
pub open spec fn bootstrap(s: StoreView) -> StoreView {
    StoreView { schema: Schema { ledger_table: true, ..s.schema }, ..s }
}

/// The effect of one schema step, or `None` when it cannot apply. Every
/// step is idempotent. Adding the note title column requires the notes
/// table; it backfills the default title into every existing note and
/// re-derives the title of every note index entry.
pub open spec fn apply_step_spec(s: StoreView, step: SchemaStep) -> Option<StoreView> {
    match step {
        SchemaStep::CreateTaskTable => Some(
            StoreView { schema: Schema { tasks_table: true, ..s.schema }, ..s },
        ),
        SchemaStep::CreateNoteTable => Some(
            StoreView { schema: Schema { notes_table: true, ..s.schema }, ..s },
        ),
        SchemaStep::CreateConcernTable => Some(
            StoreView { schema: Schema { concerns_table: true, ..s.schema }, ..s },
        ),
        SchemaStep::CreateSearchTable => Some(
            StoreView { schema: Schema { search_table: true, ..s.schema }, ..s },
        ),
        SchemaStep::AddNoteTitleColumn => if !s.schema.notes_table {
            None
        } else if s.schema.note_title_column {
            Some(s)
        } else {
            Some(
                StoreView {
                    schema: Schema { note_title_column: true, ..s.schema },
                    notes: s.notes.map_values(
                        |n: NoteView| NoteView { title: Some(default_note_title()), ..n },
                    ),
                    index: s.index.map_values(
                        |e: SearchEntryView|
                            if e.item_type == ItemType::Note {
                                SearchEntryView { title: default_note_title(), ..e }
                            } else {
                                e
                            },
                    ),
                    ..s
                },
            )
        },
    }
}

/// Recording a migration: its ledger row is appended with the clock as
/// `applied_at`, and the clock advances.
pub open spec fn record_spec(s: StoreView, m: MigrationView) -> StoreView {
    StoreView {
        ledger: s.ledger.push(
            RecordView { version: m.version, description: m.description, applied_at: s.clock },
        ),
        clock: s.clock + 1,
        ..s
    }
}

/// Runs the migrations from position `i` on: one already in the ledger
/// is skipped; otherwise its step is applied and recorded, or the run
/// stops at the first step that cannot apply, returning its position.
pub open spec fn run_from(s: StoreView, ms: Seq<MigrationView>, i: int) -> (StoreView, Option<int>)
    decreases ms.len() - i when 0 <= i <= ms.len()
{
    if i >= ms.len() {
        (s, None)
    } else if ledger_has(s.ledger, ms[i].version) {
        run_from(s, ms, i + 1)
    } else {
        match apply_step_spec(s, ms[i].step) {
            Some(s2) => run_from(record_spec(s2, ms[i]), ms, i + 1),
            None => (s, Some(i)),
        }
    }
}

/// The outcome of a whole migration run.
#[verifier::ext_equal]
pub ghost enum RunnerOutcome {
    /// Every migration applied or was already applied.
    Done,
    /// The list repeats the version at this position; nothing ran.
    Duplicate(int),
    /// The version at this position is below its predecessor; nothing ran.
    Unordered(int),
    /// The step at this position could not apply; earlier migrations
    /// remain committed.
    Failed(int),
}

/// The whole migration run: bootstrap the ledger, reject an invalid
/// list before anything is applied, then run the unapplied migrations
/// in order.
pub open spec fn apply_all_spec(s: StoreView, ms: Seq<MigrationView>) -> (StoreView, RunnerOutcome) {
    let b = bootstrap(s);
    match list_fault(ms) {
        Some(k) => (
            b,
            if ms[k].version == ms[k - 1].version {
                RunnerOutcome::Duplicate(k)
            } else {
                RunnerOutcome::Unordered(k)
            },
        ),
        None => {
            let (s2, f) = run_from(b, ms, 0);
            match f {
                Some(k) => (s2, RunnerOutcome::Failed(k)),
                None => (s2, RunnerOutcome::Done),
            }
        },
    }
}

proof fn lemma_step_preserves_wf(s: StoreView, m: MigrationView)
    requires
        s.wf(),
        !ledger_has(s.ledger, m.version),
        apply_step_spec(s, m.step) is Some,
    ensures
        (match apply_step_spec(s, m.step) {
            Some(s2) => record_spec(s2, m).wf() && record_spec(s2, m).schema.ledger_table
                == s.schema.ledger_table && record_spec(s2, m).ledger == s.ledger.push(
                RecordView { version: m.version, description: m.description, applied_at: s.clock },
            ),
            None => true,
        }),
{
    let s2 = apply_step_spec(s, m.step).unwrap();
    let s3 = record_spec(s2, m);
    lemma_default_note_title_nonempty();
    match m.step {
        SchemaStep::AddNoteTitleColumn => {
            if !s.schema.note_title_column {
                assert(forall|i: int|
                    0 <= i < s2.notes.len() ==> #[trigger] s2.notes[i] == (NoteView {
                        title: Some(default_note_title()),
                        ..s.notes[i]
                    }));
                assert forall|k: int| 0 <= k < s3.index.len() implies entry_owner_ok(
                    s3,
                    #[trigger] s3.index[k],
                ) by {
                    let e = s.index[k];
                    assert(entry_owner_ok(s, e));
                    match e.item_type {
                        ItemType::Note => {
                            let i = choose|i: int|
                                0 <= i < s.notes.len() && entry_of_note(#[trigger] s.notes[i]) == e;
                            assert(entry_of_note(s3.notes[i]) == s3.index[k]);
                        },
                        ItemType::Task => {
                            assert(s3.index[k] == e);
                            assert(s3.tasks == s.tasks);
                        },
                        ItemType::Concern => {
                            assert(s3.index[k] == e);
                            assert(s3.concerns == s.concerns);
                        },
                    }
                }
                assert forall|i: int| 0 <= i < s3.notes.len() implies index_has(
                    s3.index,
                    ItemType::Note,
                    decimal((#[trigger] s3.notes[i]).id),
                ) by {
                    let m0 = choose|m0: int|
                        0 <= m0 < s.index.len() && s.index[m0].item_type == ItemType::Note
                            && s.index[m0].item_id == decimal(s.notes[i].id);
                    assert(s3.index[m0].item_type == ItemType::Note && s3.index[m0].item_id
                        == decimal(s3.notes[i].id));
                }
                assert forall|i: int| 0 <= i < s3.tasks.len() implies index_has(
                    s3.index,
                    ItemType::Task,
                    (#[trigger] s3.tasks[i]).id,
                ) by {
                    let m0 = choose|m0: int|
                        0 <= m0 < s.index.len() && s.index[m0].item_type == ItemType::Task
                            && s.index[m0].item_id == s.tasks[i].id;
                    assert(s3.index[m0].item_type == ItemType::Task && s3.index[m0].item_id
                        == s3.tasks[i].id);
                }
                assert forall|i: int| 0 <= i < s3.concerns.len() implies index_has(
                    s3.index,
                    ItemType::Concern,
                    (#[trigger] s3.concerns[i]).id,
                ) by {
                    let m0 = choose|m0: int|
                        0 <= m0 < s.index.len() && s.index[m0].item_type == ItemType::Concern
                            && s.index[m0].item_id == s.concerns[i].id;
                    assert(s3.index[m0].item_type == ItemType::Concern && s3.index[m0].item_id
                        == s3.concerns[i].id);
                }
            }
        },
        _ => {
        },
    }
}

/// A successful run records every version it was given, keeps every
/// ledger row it started with, and never unsets the ledger flag.
proof fn lemma_run_ledger(s: StoreView, ms: Seq<MigrationView>, i: int)
    requires
        0 <= i <= ms.len(),
    ensures
        (forall|v: nat| ledger_has(s.ledger, v) ==> ledger_has(run_from(s, ms, i).0.ledger, v)),
        run_from(s, ms, i).1 is None ==> (forall|j: int|
            i <= j < ms.len() ==> ledger_has(run_from(s, ms, i).0.ledger, (#[trigger] ms[j]).version)),
        run_from(s, ms, i).0.schema.ledger_table == s.schema.ledger_table,
    decreases ms.len() - i,
{
    if i >= ms.len() {
    } else if ledger_has(s.ledger, ms[i].version) {
        lemma_run_ledger(s, ms, i + 1);
    } else {
        match apply_step_spec(s, ms[i].step) {
            Some(s2) => {
                let s3 = record_spec(s2, ms[i]);
                assert(s2.ledger == s.ledger);
                assert forall|v: nat| ledger_has(s.ledger, v) implies ledger_has(s3.ledger, v) by {
                    let w = choose|w: int| 0 <= w < s.ledger.len() && s.ledger[w].version == v;
                    assert(s3.ledger[w].version == v);
                }
                assert(ledger_has(s3.ledger, ms[i].version)) by {
                    assert(s3.ledger[s.ledger.len() as int].version == ms[i].version);
                }
                lemma_run_ledger(s3, ms, i + 1);
            },
            None => {
            },
        }
    }
}

/// A run over migrations whose versions are all in the ledger already
/// changes nothing.
proof fn lemma_run_skip(s: StoreView, ms: Seq<MigrationView>, i: int, k: int)
    requires
        0 <= i <= k <= ms.len(),
        forall|j: int| i <= j < k ==> ledger_has(s.ledger, (#[trigger] ms[j]).version),
    ensures
        run_from(s, ms, i) == run_from(s, ms, k),
    decreases k - i,
{
    if i < k {
        lemma_run_skip(s, ms, i + 1, k);
    }
}

/// Running a completed prefix first, then the whole list, continues
/// exactly where the prefix run left off.
proof fn lemma_run_prefix(s: StoreView, ms: Seq<MigrationView>, k: int, i: int)
    requires
        0 <= i <= k <= ms.len(),
        run_from(s, ms.take(k), i).1 is None,
    ensures
        run_from(s, ms, i) == run_from(run_from(s, ms.take(k), i).0, ms, k),
    decreases k - i,
{
    let p = ms.take(k);
    if i == k {
        assert(run_from(s, p, i) == (s, None::<int>));
    } else {
        assert(p[i] == ms[i]);
        if ledger_has(s.ledger, ms[i].version) {
            lemma_run_prefix(s, ms, k, i + 1);
        } else {
            match apply_step_spec(s, ms[i].step) {
                Some(s2) => {
                    lemma_run_prefix(record_spec(s2, ms[i]), ms, k, i + 1);
                },
                None => {
                },
            }
        }
    }
}

/// The migration runner is idempotent: after a run in which every
/// migration applied or was already applied, running the same list
/// again leaves the store exactly as it is and reports the same
/// success, with no ledger row duplicated and no step re-executed.
pub proof fn lemma_apply_all_idempotent(s: StoreView, ms: Seq<MigrationView>)
    requires
        apply_all_spec(s, ms).1 is Done,
    ensures
        apply_all_spec(apply_all_spec(s, ms).0, ms) == (apply_all_spec(s, ms).0, RunnerOutcome::Done),
{
    let b = bootstrap(s);
    let s1 = apply_all_spec(s, ms).0;
    assert(s1 == run_from(b, ms, 0).0);
    lemma_run_ledger(b, ms, 0);
    assert(s1.schema.ledger_table);
    assert(bootstrap(s1).schema =~= s1.schema);
    assert(bootstrap(s1) =~= s1);
    lemma_run_skip(s1, ms, 0, ms.len() as int);
    assert(run_from(s1, ms, 0) == (s1, None::<int>));
}

/// Restarts between migrations do not change where a run ends: a store
/// taken through any completed prefix of a valid list and then through
/// the whole list reaches exactly the state (and outcome) of a single
/// full run.
pub proof fn lemma_apply_all_restart(s: StoreView, ms: Seq<MigrationView>, k: int)
    requires
        valid_versions(ms),
        0 <= k <= ms.len(),
        apply_all_spec(s, ms.take(k)).1 is Done,
    ensures
        apply_all_spec(apply_all_spec(s, ms.take(k)).0, ms) == apply_all_spec(s, ms),
{
    let b = bootstrap(s);
    let p = ms.take(k);
    lemma_list_fault_none_iff_valid(ms);
    lemma_list_fault_none_iff_valid(p);
    assert(valid_versions(p)) by {
        assert(forall|i: int, j: int| 0 <= i < j < p.len() ==> p[i] == ms[i] && p[j] == ms[j]);
    }
    let s1 = apply_all_spec(s, p).0;
    assert(s1 == run_from(b, p, 0).0);
    lemma_run_ledger(b, p, 0);
    assert(s1.schema.ledger_table);
    assert(bootstrap(s1).schema =~= s1.schema);
    assert(bootstrap(s1) =~= s1);
    assert forall|j: int| 0 <= j < k implies ledger_has(s1.ledger, (#[trigger] ms[j]).version) by {
        assert(p[j] == ms[j]);
    }
    lemma_run_skip(s1, ms, 0, k);
    lemma_run_prefix(b, ms, k, 0);
    assert(run_from(s1, ms, 0) == run_from(b, ms, 0));
}

/// The store: an embedded database opened once at startup, migrated to
/// the latest schema by [`Store::apply_all`], then mutated only through
/// the entity operations, each of which keeps the search index in
/// lock-step within the same logical transaction.
pub struct Store {
    schema: Schema,
    ledger: Vec<MigrationRecord>,
    tasks: Vec<Task>,
    notes: Vec<Note>,
    concerns: Vec<Concern>,
    index: Vec<SearchEntry>,
    next_note_id: u64,
    clock: u64,
}

impl View for Store {
    type V = StoreView;

    closed spec fn view(&self) -> StoreView {
        StoreView {
            schema: self.schema,
            ledger: record_views(self.ledger@),
            tasks: task_views(self.tasks@),
            notes: note_views(self.notes@),
            concerns: concern_views(self.concerns@),
            index: entry_views(self.index@),
            next_note_id: self.next_note_id as nat,
            clock: self.clock as nat,
        }
    }
}

impl Store {
    /// Opens a fresh, never-migrated store: empty tables, empty ledger,
    /// empty index, no schema yet.
    pub fn open() -> (s: Store)
        ensures
            s@ == StoreView::initial(),
            s@.wf(),
    {
        let s = Store {
            schema: Schema {
                ledger_table: false,
                tasks_table: false,
                notes_table: false,
                concerns_table: false,
                search_table: false,
                note_title_column: false,
            },
            ledger: Vec::new(),
            tasks: Vec::new(),
            notes: Vec::new(),
            concerns: Vec::new(),
            index: Vec::new(),
            next_note_id: 1,
            clock: 0,
        };
        proof {
            assert(s@ =~= StoreView::initial());
        }
        s
    }

    /// The live tasks, in creation order.
    pub fn tasks(&self) -> (r: &Vec<Task>)
        ensures
            task_views(r@) == self@.tasks,
    {
        &self.tasks
    }

    /// The live notes, in creation order.
    pub fn notes(&self) -> (r: &Vec<Note>)
        ensures
            note_views(r@) == self@.notes,
    {
        &self.notes
    }

    /// The live concerns, in creation order.
    pub fn concerns(&self) -> (r: &Vec<Concern>)
        ensures
            concern_views(r@) == self@.concerns,
    {
        &self.concerns
    }

    /// The migration ledger, in application order.
    pub fn ledger(&self) -> (r: &Vec<MigrationRecord>)
        ensures
            record_views(r@) == self@.ledger,
    {
        &self.ledger
    }

    /// The search index, newest entry first.
    pub fn entries(&self) -> (r: &Vec<SearchEntry>)
        ensures
            entry_views(r@) == self@.index,
    {
        &self.index
    }

    fn find_task(&self, id: &String) -> (r: Option<usize>)
        ensures
            match r {
                Some(p) => p < self@.tasks.len() && self@.tasks[p as int].id == id@,
                None => !task_id_taken(self@.tasks, id@),
            },
    {
        let mut i: usize = 0;
        while i < self.tasks.len()
            invariant
                i <= self@.tasks.len(),
                self@.tasks.len() == self.tasks@.len(),
                forall|m: int| 0 <= m < i ==> (#[trigger] self@.tasks[m]).id != id@,
            decreases self.tasks@.len() - i,
        {
            if self.tasks[i].id.eq(id) {
                return Some(i);
            }
            i += 1;
        }
        None
    }

    fn find_note(&self, id: u64) -> (r: Option<usize>)
        ensures
            match r {
                Some(p) => p < self@.notes.len() && self@.notes[p as int].id == id as nat,
                None => !note_id_taken(self@.notes, id as nat),
            },
    {
        let mut i: usize = 0;
        while i < self.notes.len()
            invariant
                i <= self@.notes.len(),
                self@.notes.len() == self.notes@.len(),
                forall|m: int| 0 <= m < i ==> (#[trigger] self@.notes[m]).id != id as nat,
            decreases self.notes@.len() - i,
        {
            if self.notes[i].id == id {
                return Some(i);
            }
            i += 1;
        }
        None
    }

    fn find_concern(&self, id: &String) -> (r: Option<usize>)
        ensures
            match r {
                Some(p) => p < self@.concerns.len() && self@.concerns[p as int].id == id@,
                None => !concern_id_taken(self@.concerns, id@),
            },
    {
        let mut i: usize = 0;
        while i < self.concerns.len()
            invariant
                i <= self@.concerns.len(),
                self@.concerns.len() == self.concerns@.len(),
                forall|m: int| 0 <= m < i ==> (#[trigger] self@.concerns[m]).id != id@,
            decreases self.concerns@.len() - i,
        {
            if self.concerns[i].id.eq(id) {
                return Some(i);
            }
            i += 1;
        }
        None
    }

    /// Removes the index entry under the given key; a no-op if absent.
    fn index_delete(&mut self, t: ItemType, id: &String)
        ensures
            final(self)@ == (StoreView { index: remove_key(old(self)@.index, t, id@), ..old(self)@ }),
    {
        let mut out: Vec<SearchEntry> = Vec::new();
        let mut k: usize = 0;
        while k < self.index.len()
            invariant
                k <= self.index@.len(),
                entry_views(out@) == remove_key(entry_views(self.index@).take(k as int), t, id@),
            decreases self.index@.len() - k,
        {
            let ghost pre = entry_views(self.index@).take(k as int);
            let ghost ev = self.index@[k as int]@;
            let e = &self.index[k];
            let hit = e.item_type == t && e.item_id.eq(id);
            if !hit {
                out.push(e.clone());
            }
            proof {
                assert(entry_views(self.index@).take(k + 1 as int) =~= pre.push(ev));
                lemma_remove_key_push(pre, ev, t, id@);
                if hit {
                    assert(entry_views(out@) =~= remove_key(pre, t, id@)
                        + Seq::<SearchEntryView>::empty());
                } else {
                    assert(entry_views(out@) =~= remove_key(pre, t, id@) + seq![ev]);
                }
            }
            k += 1;
        }
        proof {
            assert(entry_views(self.index@).take(self.index@.len() as int) =~= entry_views(
                self.index@,
            ));
        }
        self.index = out;
        proof {
            assert(self@ =~= (StoreView { index: remove_key(old(self)@.index, t, id@), ..old(self)@ }));
        }
    }

    /// Creates a task with the given identifier and text: the task is
    /// appended with fresh timestamps and its index entry is written in
    /// the same step. Rejected, leaving the store unchanged, when the
    /// needed tables are missing, the text is empty, or the identifier
    /// is taken.
    pub fn create_task(&mut self, id: &str, text: &str) -> (r: Result<(), StoreError>)
        requires
            old(self)@.wf(),
            old(self)@.clock < u64::MAX,
        ensures
            final(self)@.wf(),
            match r {
                Ok(()) => old(self)@.schema.tasks_table && old(self)@.schema.search_table && text@.len()
                    > 0 && !task_id_taken(old(self)@.tasks, id@) && final(self)@ == create_task_spec(
                    old(self)@,
                    id@,
                    text@,
                ),
                Err(StoreError::SchemaNotReady) => !(old(self)@.schema.tasks_table
                    && old(self)@.schema.search_table) && final(self)@ == old(self)@,
                Err(StoreError::EmptyText) => old(self)@.schema.tasks_table
                    && old(self)@.schema.search_table && text@.len() == 0 && final(self)@ == old(self)@,
                Err(StoreError::DuplicateId) => old(self)@.schema.tasks_table
                    && old(self)@.schema.search_table && text@.len() > 0 && task_id_taken(
                    old(self)@.tasks,
                    id@,
                ) && final(self)@ == old(self)@,
                Err(_) => false,
            },
    {
        if !(self.schema.tasks_table && self.schema.search_table) {
            return Err(StoreError::SchemaNotReady);
        }
        if text.unicode_len() == 0 {
            return Err(StoreError::EmptyText);
        }
        let id_s = String::from_str(id);
        if self.find_task(&id_s).is_some() {
            return Err(StoreError::DuplicateId);
        }
        let ts = self.clock;
        self.clock = ts + 1;
        self.tasks.push(
            Task {
                id: String::from_str(id),
                text: String::from_str(text),
                done: false,
                created_at: ts,
                updated_at: ts,
            },
        );
        self.index_upsert(
            ItemType::Task,
            id_s,
            String::from_str(text),
            String::from_str(text),
            ts,
        );
        proof {
            assert(self@.tasks =~~= create_task_spec(old(self)@, id@, text@).tasks);
            assert(self@ =~~= create_task_spec(old(self)@, id@, text@));
            lemma_create_task_wf(old(self)@, id@, text@);
        }
        Ok(())
    }

    /// Updates the task with the given identifier: new text and done
    /// flag, `created_at` kept, `updated_at` advanced, the index entry
    /// re-derived in the same step. Rejected, leaving the store
    /// unchanged, when the needed tables are missing, the text is empty,
    /// or no task has the identifier.
    pub fn update_task(&mut self, id: &str, text: &str, done: bool) -> (r: Result<(), StoreError>)
        requires
            old(self)@.wf(),
            old(self)@.clock < u64::MAX,
        ensures
            final(self)@.wf(),
            match r {
                Ok(()) => old(self)@.schema.tasks_table && old(self)@.schema.search_table && text@.len()
                    > 0 && (exists|p: int|
                    0 <= p < old(self)@.tasks.len() && (#[trigger] old(self)@.tasks[p]).id == id@
                        && final(self)@ == update_task_spec(old(self)@, p, text@, done)),
                Err(StoreError::SchemaNotReady) => !(old(self)@.schema.tasks_table
                    && old(self)@.schema.search_table) && final(self)@ == old(self)@,
                Err(StoreError::EmptyText) => old(self)@.schema.tasks_table
                    && old(self)@.schema.search_table && text@.len() == 0 && final(self)@ == old(self)@,
                Err(StoreError::NotFound) => old(self)@.schema.tasks_table
                    && old(self)@.schema.search_table && text@.len() > 0 && !task_id_taken(
                    old(self)@.tasks,
                    id@,
                ) && final(self)@ == old(self)@,
                Err(_) => false,
            },
    {
        if !(self.schema.tasks_table && self.schema.search_table) {
            return Err(StoreError::SchemaNotReady);
        }
        if text.unicode_len() == 0 {
            return Err(StoreError::EmptyText);
        }
        let id_s = String::from_str(id);
        let p = match self.find_task(&id_s) {
            Some(p) => p,
            None => {
                return Err(StoreError::NotFound);
            },
        };
        let created = self.tasks[p].created_at;
        let ts = self.clock;
        self.clock = ts + 1;
        let _old_task = self.tasks.remove(p);
        self.tasks.insert(
            p,
            Task {
                id: String::from_str(id),
                text: String::from_str(text),
                done: done,
                created_at: created,
                updated_at: ts,
            },
        );
        self.index_upsert(
            ItemType::Task,
            id_s,
            String::from_str(text),
            String::from_str(text),
            ts,
        );
        proof {
            assert(self@.tasks =~~= update_task_spec(old(self)@, p as int, text@, done).tasks);
            assert(self@ =~~= update_task_spec(old(self)@, p as int, text@, done));
            lemma_update_task_wf(old(self)@, p as int, text@, done);
        }
        Ok(())
    }

    /// Deletes the task with the given identifier together with its
    /// index entry. Rejected, leaving the store unchanged, when the
    /// needed tables are missing or no task has the identifier.
    pub fn delete_task(&mut self, id: &str) -> (r: Result<(), StoreError>)
        requires
            old(self)@.wf(),
        ensures
            final(self)@.wf(),
            match r {
                Ok(()) => old(self)@.schema.tasks_table && old(self)@.schema.search_table && (
                exists|p: int|
                    0 <= p < old(self)@.tasks.len() && (#[trigger] old(self)@.tasks[p]).id == id@
                        && final(self)@ == delete_task_spec(old(self)@, p)),
                Err(StoreError::SchemaNotReady) => !(old(self)@.schema.tasks_table
                    && old(self)@.schema.search_table) && final(self)@ == old(self)@,
                Err(StoreError::NotFound) => old(self)@.schema.tasks_table
                    && old(self)@.schema.search_table && !task_id_taken(old(self)@.tasks, id@)
                    && final(self)@ == old(self)@,
                Err(_) => false,
            },
    {
        if !(self.schema.tasks_table && self.schema.search_table) {
            return Err(StoreError::SchemaNotReady);
        }
        let id_s = String::from_str(id);
        let p = match self.find_task(&id_s) {
            Some(p) => p,
            None => {
                return Err(StoreError::NotFound);
            },
        };
        let _old_task = self.tasks.remove(p);
        self.index_delete(ItemType::Task, &id_s);
        proof {
            assert(self@.tasks =~~= delete_task_spec(old(self)@, p as int).tasks);
            assert(self@ =~~= delete_task_spec(old(self)@, p as int));
            lemma_delete_task_wf(old(self)@, p as int);
        }
        Ok(())
    }

    /// Creates a note: the store assigns the next sequential identifier
    /// and fresh timestamps, stores the title (the default when none is
    /// supplied) once the schema has a title column, and writes the
    /// index entry in the same step. Rejected, leaving the store
    /// unchanged, when the needed tables are missing, a title is
    /// supplied before the title column exists, or a supplied title is
    /// empty.
    pub fn create_note(&mut self, title: Option<&str>, content: &str) -> (r: Result<
        u64,
        StoreError,
    >)
        requires
            old(self)@.wf(),
            old(self)@.clock < u64::MAX,
            old(self)@.next_note_id < u64::MAX,
        ensures
            final(self)@.wf(),
            match r {
                Ok(nid) => old(self)@.schema.notes_table && old(self)@.schema.search_table
                    && note_title_fault(old(self)@, title_arg_view(title)) is None && nid as nat
                    == old(self)@.next_note_id && final(self)@ == create_note_spec(
                    old(self)@,
                    title_arg_view(title),
                    content@,
                ),
                Err(StoreError::SchemaNotReady) => !(old(self)@.schema.notes_table
                    && old(self)@.schema.search_table) && final(self)@ == old(self)@,
                Err(e) => old(self)@.schema.notes_table && old(self)@.schema.search_table
                    && note_title_fault(old(self)@, title_arg_view(title)) == Some(e) && final(self)@ == old(self)@,
            },
    {
        if !(self.schema.notes_table && self.schema.search_table) {
            return Err(StoreError::SchemaNotReady);
        }
        let stored: Option<String> = match title {
            Some(t) => {
                if !self.schema.note_title_column {
                    return Err(StoreError::NoTitleColumn);
                }
                if t.unicode_len() == 0 {
                    return Err(StoreError::EmptyTitle);
                }
                Some(String::from_str(t))
            },
            None => {
                if self.schema.note_title_column {
                    Some(String::from_str("Untitled Note"))
                } else {
                    None
                }
            },
        };
        let entry_title: String = match &stored {
            Some(t) => t.clone(),
            None => String::new(),
        };
        let nid = self.next_note_id;
        self.next_note_id = nid + 1;
        let ts = self.clock;
        self.clock = ts + 1;
        self.notes.push(
            Note {
                id: nid,
                title: stored,
                content: String::from_str(content),
                created_at: ts,
                updated_at: ts,
            },
        );
        self.index_upsert(
            ItemType::Note,
            decimal_string(nid),
            entry_title,
            String::from_str(content),
            ts,
        );
        proof {
            assert(self@.notes =~~= create_note_spec(
                old(self)@,
                title_arg_view(title),
                content@,
            ).notes);
            assert(self@ =~~= create_note_spec(old(self)@, title_arg_view(title), content@));
            lemma_create_note_wf(old(self)@, title_arg_view(title), content@);
        }
        Ok(nid)
    }

    /// Updates the note with the given identifier: new content, the
    /// supplied title (or the stored one kept when none is supplied),
    /// `created_at` kept, `updated_at` advanced, the index entry
    /// re-derived in the same step. Rejected, leaving the store
    /// unchanged, on a missing table, a bad title, or an unknown
    /// identifier.
    pub fn update_note(&mut self, id: u64, title: Option<&str>, content: &str) -> (r: Result<
        (),
        StoreError,
    >)
        requires
            old(self)@.wf(),
            old(self)@.clock < u64::MAX,
        ensures
            final(self)@.wf(),
            match r {
                Ok(()) => old(self)@.schema.notes_table && old(self)@.schema.search_table
                    && note_title_fault(old(self)@, title_arg_view(title)) is None && (exists|p: int|
                    0 <= p < old(self)@.notes.len() && (#[trigger] old(self)@.notes[p]).id == id as nat
                        && final(self)@ == update_note_spec(
                        old(self)@,
                        p,
                        title_arg_view(title),
                        content@,
                    )),
                Err(StoreError::SchemaNotReady) => !(old(self)@.schema.notes_table
                    && old(self)@.schema.search_table) && final(self)@ == old(self)@,
                Err(StoreError::NotFound) => old(self)@.schema.notes_table
                    && old(self)@.schema.search_table && note_title_fault(
                    old(self)@,
                    title_arg_view(title),
                ) is None && !note_id_taken(old(self)@.notes, id as nat) && final(self)@ == old(self)@,
                Err(e) => old(self)@.schema.notes_table && old(self)@.schema.search_table
                    && note_title_fault(old(self)@, title_arg_view(title)) == Some(e) && final(self)@ == old(self)@,
            },
    {
        if !(self.schema.notes_table && self.schema.search_table) {
            return Err(StoreError::SchemaNotReady);
        }
        match title {
            Some(t) => {
                if !self.schema.note_title_column {
                    return Err(StoreError::NoTitleColumn);
                }
                if t.unicode_len() == 0 {
                    return Err(StoreError::EmptyTitle);
                }
            },
            None => {},
        }
        let p = match self.find_note(id) {
            Some(p) => p,
            None => {
                return Err(StoreError::NotFound);
            },
        };
        let new_title: Option<String> = match title {
            Some(t) => Some(String::from_str(t)),
            None => match &self.notes[p].title {
                Some(t) => Some(t.clone()),
                None => None,
            },
        };
        let entry_title: String = match &new_title {
            Some(t) => t.clone(),
            None => String::new(),
        };
        let created = self.notes[p].created_at;
        let ts = self.clock;
        self.clock = ts + 1;
        let _old_note = self.notes.remove(p);
        self.notes.insert(
            p,
            Note {
                id: id,
                title: new_title,
                content: String::from_str(content),
                created_at: created,
                updated_at: ts,
            },
        );
        self.index_upsert(
            ItemType::Note,
            decimal_string(id),
            entry_title,
            String::from_str(content),
            ts,
        );
        proof {
            assert(self@.notes =~~= update_note_spec(
                old(self)@,
                p as int,
                title_arg_view(title),
                content@,
            ).notes);
            assert(self@ =~~= update_note_spec(
                old(self)@,
                p as int,
                title_arg_view(title),
                content@,
            ));
            lemma_update_note_wf(old(self)@, p as int, title_arg_view(title), content@);
        }
        Ok(())
    }

    /// Deletes the note with the given identifier together with its
    /// index entry. Rejected, leaving the store unchanged, on a missing
    /// table or an unknown identifier.
    pub fn delete_note(&mut self, id: u64) -> (r: Result<(), StoreError>)
        requires
            old(self)@.wf(),
        ensures
            final(self)@.wf(),
            match r {
                Ok(()) => old(self)@.schema.notes_table && old(self)@.schema.search_table && (
                exists|p: int|
                    0 <= p < old(self)@.notes.len() && (#[trigger] old(self)@.notes[p]).id == id as nat
                        && final(self)@ == delete_note_spec(old(self)@, p)),
                Err(StoreError::SchemaNotReady) => !(old(self)@.schema.notes_table
                    && old(self)@.schema.search_table) && final(self)@ == old(self)@,
                Err(StoreError::NotFound) => old(self)@.schema.notes_table
                    && old(self)@.schema.search_table && !note_id_taken(old(self)@.notes, id as nat)
                    && final(self)@ == old(self)@,
                Err(_) => false,
            },
    {
        if !(self.schema.notes_table && self.schema.search_table) {
            return Err(StoreError::SchemaNotReady);
        }
        let p = match self.find_note(id) {
            Some(p) => p,
            None => {
                return Err(StoreError::NotFound);
            },
        };
        let _old_note = self.notes.remove(p);
        let key = decimal_string(id);
        self.index_delete(ItemType::Note, &key);
        proof {
            assert(self@.notes =~~= delete_note_spec(old(self)@, p as int).notes);
            assert(self@ =~~= delete_note_spec(old(self)@, p as int));
            lemma_delete_note_wf(old(self)@, p as int);
        }
        Ok(())
    }

    /// Creates a concern with the given identifier and text: the concern is
    /// appended with fresh timestamps and its index entry is written in
    /// the same step. Rejected, leaving the store unchanged, when the
    /// needed tables are missing, the text is empty, or the identifier
    /// is taken.
    pub fn create_concern(&mut self, id: &str, text: &str, severity: &str, status: &str) -> (r:
        Result<(), StoreError>)
        requires
            old(self)@.wf(),
            old(self)@.clock < u64::MAX,
        ensures
            final(self)@.wf(),
            match r {
                Ok(()) => old(self)@.schema.concerns_table && old(self)@.schema.search_table && text@.len()
                    > 0 && (severity_of(severity@) matches Some(sv) && status_of(status@) matches Some(st)
                    && !concern_id_taken(old(self)@.concerns, id@) && final(self)@
                    == create_concern_spec(old(self)@, id@, text@, sv, st)),
                Err(StoreError::SchemaNotReady) => !(old(self)@.schema.concerns_table
                    && old(self)@.schema.search_table) && final(self)@ == old(self)@,
                Err(StoreError::EmptyText) => old(self)@.schema.concerns_table
                    && old(self)@.schema.search_table && text@.len() == 0 && final(self)@ == old(self)@,
                Err(StoreError::InvalidSeverity) => old(self)@.schema.concerns_table
                    && old(self)@.schema.search_table && text@.len() > 0 && severity_of(severity@) is None
                    && final(self)@ == old(self)@,
                Err(StoreError::InvalidStatus) => old(self)@.schema.concerns_table
                    && old(self)@.schema.search_table && text@.len() > 0 && severity_of(severity@) is Some
                    && status_of(status@) is None && final(self)@ == old(self)@,
                Err(StoreError::DuplicateId) => old(self)@.schema.concerns_table
                    && old(self)@.schema.search_table && text@.len() > 0 && severity_of(severity@) is Some
                    && status_of(status@) is Some && concern_id_taken(old(self)@.concerns, id@)
                    && final(self)@ == old(self)@,
                Err(_) => false,
            },
    {
        if !(self.schema.concerns_table && self.schema.search_table) {
            return Err(StoreError::SchemaNotReady);
        }
        if text.unicode_len() == 0 {
            return Err(StoreError::EmptyText);
        }
        let sv = match Severity::parse(severity) {
            Some(sv) => sv,
            None => {
                return Err(StoreError::InvalidSeverity);
            },
        };
        let st = match Status::parse(status) {
            Some(st) => st,
            None => {
                return Err(StoreError::InvalidStatus);
            },
        };
        let id_s = String::from_str(id);
        if self.find_concern(&id_s).is_some() {
            return Err(StoreError::DuplicateId);
        }
        let ts = self.clock;
        self.clock = ts + 1;
        self.concerns.push(
            Concern {
                id: String::from_str(id),
                text: String::from_str(text),
                severity: sv,
                status: st,
                created_at: ts,
                updated_at: ts,
            },
        );
        self.index_upsert(ItemType::Concern, id_s, String::from_str(text), String::new(), ts);
        proof {
            assert(self@.concerns =~~= create_concern_spec(
                old(self)@,
                id@,
                text@,
                sv,
                st,
            ).concerns);
            assert(self@ =~~= create_concern_spec(old(self)@, id@, text@, sv, st));
            lemma_create_concern_wf(old(self)@, id@, text@, sv, st);
        }
        Ok(())
    }

    /// Updates the concern with the given identifier: new text and done
    /// flag, `created_at` kept, `updated_at` advanced, the index entry
    /// re-derived in the same step. Rejected, leaving the store
    /// unchanged, when the needed tables are missing, the text is empty,
    /// or no concern has the identifier.
    pub fn update_concern(&mut self, id: &str, text: &str, severity: &str, status: &str) -> (r:
        Result<(), StoreError>)
        requires
            old(self)@.wf(),
            old(self)@.clock < u64::MAX,
        ensures
            final(self)@.wf(),
            match r {
                Ok(()) => old(self)@.schema.concerns_table && old(self)@.schema.search_table && text@.len()
                    > 0 && (severity_of(severity@) matches Some(sv) && status_of(status@) matches Some(st)
                    && (exists|p: int|
                    0 <= p < old(self)@.concerns.len() && (#[trigger] old(self)@.concerns[p]).id == id@
                        && final(self)@ == update_concern_spec(old(self)@, p, text@, sv, st))),
                Err(StoreError::SchemaNotReady) => !(old(self)@.schema.concerns_table
                    && old(self)@.schema.search_table) && final(self)@ == old(self)@,
                Err(StoreError::EmptyText) => old(self)@.schema.concerns_table
                    && old(self)@.schema.search_table && text@.len() == 0 && final(self)@ == old(self)@,
                Err(StoreError::InvalidSeverity) => old(self)@.schema.concerns_table
                    && old(self)@.schema.search_table && text@.len() > 0 && severity_of(severity@) is None
                    && final(self)@ == old(self)@,
                Err(StoreError::InvalidStatus) => old(self)@.schema.concerns_table
                    && old(self)@.schema.search_table && text@.len() > 0 && severity_of(severity@) is Some
                    && status_of(status@) is None && final(self)@ == old(self)@,
                Err(StoreError::NotFound) => old(self)@.schema.concerns_table
                    && old(self)@.schema.search_table && text@.len() > 0 && severity_of(severity@) is Some
                    && status_of(status@) is Some && !concern_id_taken(old(self)@.concerns, id@)
                    && final(self)@ == old(self)@,
                Err(_) => false,
            },
    {
        if !(self.schema.concerns_table && self.schema.search_table) {
            return Err(StoreError::SchemaNotReady);
        }
        if text.unicode_len() == 0 {
            return Err(StoreError::EmptyText);
        }
        let sv = match Severity::parse(severity) {
            Some(sv) => sv,
            None => {
                return Err(StoreError::InvalidSeverity);
            },
        };
        let st = match Status::parse(status) {
            Some(st) => st,
            None => {
                return Err(StoreError::InvalidStatus);
            },
        };
        let id_s = String::from_str(id);
        let p = match self.find_concern(&id_s) {
            Some(p) => p,
            None => {
                return Err(StoreError::NotFound);
            },
        };
        let created = self.concerns[p].created_at;
        let ts = self.clock;
        self.clock = ts + 1;
        let _old_concern = self.concerns.remove(p);
        self.concerns.insert(
            p,
            Concern {
                id: String::from_str(id),
                text: String::from_str(text),
                severity: sv,
                status: st,
                created_at: created,
                updated_at: ts,
            },
        );
        self.index_upsert(ItemType::Concern, id_s, String::from_str(text), String::new(), ts);
        proof {
            assert(self@.concerns =~~= update_concern_spec(
                old(self)@,
                p as int,
                text@,
                sv,
                st,
            ).concerns);
            assert(self@ =~~= update_concern_spec(old(self)@, p as int, text@, sv, st));
            lemma_update_concern_wf(old(self)@, p as int, text@, sv, st);
        }
        Ok(())
    }

    /// Deletes the concern with the given identifier together with its
    /// index entry. Rejected, leaving the store unchanged, when the
    /// needed tables are missing or no concern has the identifier.
    pub fn delete_concern(&mut self, id: &str) -> (r: Result<(), StoreError>)
        requires
            old(self)@.wf(),
        ensures
            final(self)@.wf(),
            match r {
                Ok(()) => old(self)@.schema.concerns_table && old(self)@.schema.search_table && (
                exists|p: int|
                    0 <= p < old(self)@.concerns.len() && (#[trigger] old(self)@.concerns[p]).id == id@
                        && final(self)@ == delete_concern_spec(old(self)@, p)),
                Err(StoreError::SchemaNotReady) => !(old(self)@.schema.concerns_table
                    && old(self)@.schema.search_table) && final(self)@ == old(self)@,
                Err(StoreError::NotFound) => old(self)@.schema.concerns_table
                    && old(self)@.schema.search_table && !concern_id_taken(old(self)@.concerns, id@)
                    && final(self)@ == old(self)@,
                Err(_) => false,
            },
    {
        if !(self.schema.concerns_table && self.schema.search_table) {
            return Err(StoreError::SchemaNotReady);
        }
        let id_s = String::from_str(id);
        let p = match self.find_concern(&id_s) {
            Some(p) => p,
            None => {
                return Err(StoreError::NotFound);
            },
        };
        let _old_concern = self.concerns.remove(p);
        self.index_delete(ItemType::Concern, &id_s);
        proof {
            assert(self@.concerns =~~= delete_concern_spec(old(self)@, p as int).concerns);
            assert(self@ =~~= delete_concern_spec(old(self)@, p as int));
            lemma_delete_concern_wf(old(self)@, p as int);
        }
        Ok(())
    }

    fn ledger_contains(&self, v: u64) -> (r: bool)
        ensures
            r == ledger_has(self@.ledger, v as nat),
    {
        let mut i: usize = 0;
        while i < self.ledger.len()
            invariant
                i <= self@.ledger.len(),
                self@.ledger.len() == self.ledger@.len(),
                forall|m: int| 0 <= m < i ==> (#[trigger] self@.ledger[m]).version != v as nat,
            decreases self.ledger@.len() - i,
        {
            if self.ledger[i].version == v {
                proof {
                    assert(self@.ledger[i as int].version == v as nat);
                }
                return true;
            }
            i += 1;
        }
        false
    }

    fn apply_step(&mut self, step: SchemaStep) -> (r: Result<(), ()>)
        ensures
            match apply_step_spec(old(self)@, step) {
                Some(s2) => r is Ok && final(self)@ == s2,
                None => r is Err && final(self)@ == old(self)@,
            },
    {
        match step {
            SchemaStep::CreateTaskTable => {
                self.schema.tasks_table = true;
                proof {
                    assert(self@ =~~= apply_step_spec(old(self)@, step).unwrap());
                }
                Ok(())
            },
            SchemaStep::CreateNoteTable => {
                self.schema.notes_table = true;
                proof {
                    assert(self@ =~~= apply_step_spec(old(self)@, step).unwrap());
                }
                Ok(())
            },
            SchemaStep::CreateConcernTable => {
                self.schema.concerns_table = true;
                proof {
                    assert(self@ =~~= apply_step_spec(old(self)@, step).unwrap());
                }
                Ok(())
            },
            SchemaStep::CreateSearchTable => {
                self.schema.search_table = true;
                proof {
                    assert(self@ =~~= apply_step_spec(old(self)@, step).unwrap());
                }
                Ok(())
            },
            SchemaStep::AddNoteTitleColumn => {
                if !self.schema.notes_table {
                    return Err(());
                }
                if self.schema.note_title_column {
                    proof {
                        assert(self@ =~~= apply_step_spec(old(self)@, step).unwrap());
                    }
                    return Ok(());
                }
                self.schema.note_title_column = true;
                let mut new_notes: Vec<Note> = Vec::new();
                let mut i: usize = 0;
                while i < self.notes.len()
                    invariant
                        i <= self.notes@.len(),
                        new_notes@.len() == i,
                        forall|m: int|
                            0 <= m < i ==> note_views(new_notes@)[m] == (NoteView {
                                title: Some(default_note_title()),
                                ..note_views(self.notes@)[m]
                            }),
                    decreases self.notes@.len() - i,
                {
                    let ghost pre_notes = new_notes@;
                    let n = &self.notes[i];
                    new_notes.push(
                        Note {
                            id: n.id,
                            title: Some(String::from_str("Untitled Note")),
                            content: n.content.clone(),
                            created_at: n.created_at,
                            updated_at: n.updated_at,
                        },
                    );
                    proof {
                        assert forall|m: int| 0 <= m < i + 1 implies note_views(new_notes@)[m]
                            == (NoteView {
                            title: Some(default_note_title()),
                            ..note_views(self.notes@)[m]
                        }) by {
                            if m < i {
                                assert(new_notes@[m] == pre_notes[m]);
                                assert(note_views(pre_notes)[m] == (NoteView {
                                    title: Some(default_note_title()),
                                    ..note_views(self.notes@)[m]
                                }));
                            } else {
                                assert(note_views(new_notes@)[m] =~~= (NoteView {
                                    title: Some(default_note_title()),
                                    ..note_views(self.notes@)[m]
                                }));
                            }
                        }
                    }
                    i += 1;
                }
                proof {
                    assert(note_views(new_notes@) =~~= note_views(self.notes@).map_values(
                        |n: NoteView| NoteView { title: Some(default_note_title()), ..n },
                    ));
                }
                self.notes = new_notes;
                let mut new_index: Vec<SearchEntry> = Vec::new();
                let mut k: usize = 0;
                while k < self.index.len()
                    invariant
                        k <= self.index@.len(),
                        new_index@.len() == k,
                        forall|m: int|
                            0 <= m < k ==> entry_views(new_index@)[m] == (
                            if entry_views(self.index@)[m].item_type == ItemType::Note {
                                SearchEntryView {
                                    title: default_note_title(),
                                    ..entry_views(self.index@)[m]
                                }
                            } else {
                                entry_views(self.index@)[m]
                            }),
                    decreases self.index@.len() - k,
                {
                    let ghost pre_ix = new_index@;
                    let e = &self.index[k];
                    if e.item_type == ItemType::Note {
                        new_index.push(
                            SearchEntry {
                                item_type: e.item_type,
                                item_id: e.item_id.clone(),
                                title: String::from_str("Untitled Note"),
                                content: e.content.clone(),
                                updated_at: e.updated_at,
                            },
                        );
                    } else {
                        new_index.push(e.clone());
                    }
                    proof {
                        assert forall|m: int| 0 <= m < k + 1 implies entry_views(new_index@)[m]
                            == (if entry_views(self.index@)[m].item_type == ItemType::Note {
                            SearchEntryView {
                                title: default_note_title(),
                                ..entry_views(self.index@)[m]
                            }
                        } else {
                            entry_views(self.index@)[m]
                        }) by {
                            if m < k {
                                assert(new_index@[m] == pre_ix[m]);
                                assert(entry_views(new_index@)[m] == entry_views(pre_ix)[m]);
                                assert(entry_views(pre_ix)[m] == (
                                if entry_views(self.index@)[m].item_type == ItemType::Note {
                                    SearchEntryView {
                                        title: default_note_title(),
                                        ..entry_views(self.index@)[m]
                                    }
                                } else {
                                    entry_views(self.index@)[m]
                                }));
                            } else {
                                if entry_views(self.index@)[m].item_type == ItemType::Note {
                                    assert(entry_views(new_index@)[m] =~~= (SearchEntryView {
                                        title: default_note_title(),
                                        ..entry_views(self.index@)[m]
                                    }));
                                } else {
                                    assert(entry_views(new_index@)[m] =~~= entry_views(
                                        self.index@,
                                    )[m]);
                                }
                            }
                        }
                    }
                    k += 1;
                }
                proof {
                    assert(entry_views(new_index@) =~~= entry_views(self.index@).map_values(
                        |e: SearchEntryView|
                            if e.item_type == ItemType::Note {
                                SearchEntryView { title: default_note_title(), ..e }
                            } else {
                                e
                            },
                    ));
                }
                self.index = new_index;
                proof {
                    assert(self@ =~~= apply_step_spec(old(self)@, step).unwrap());
                }
                Ok(())
            },
        }
    }

    /// Brings the store's schema to the latest version: the ledger table
    /// is ensured unconditionally, a list with a duplicate or
    /// out-of-order version is rejected before anything is applied, and
    /// each migration not yet in the ledger is then applied and recorded
    /// in ascending position order, stopping at the first step that
    /// cannot apply (earlier migrations remain committed). Applying the
    /// same list to an already-migrated store is a no-op.
    pub fn apply_all(&mut self, ms: &Vec<Migration>) -> (r: Result<(), MigrationError>)
        requires
            old(self)@.wf(),
            old(self)@.clock + ms@.len() <= u64::MAX,
        ensures
            final(self)@.wf(),
            final(self)@ == apply_all_spec(old(self)@, migration_views(ms@)).0,
            (match r {
                Ok(()) => apply_all_spec(old(self)@, migration_views(ms@)).1 is Done,
                Err(MigrationError::DuplicateVersion(v)) => apply_all_spec(
                    old(self)@,
                    migration_views(ms@),
                ).1 matches RunnerOutcome::Duplicate(k) && v as nat == migration_views(
                    ms@,
                )[k].version,
                Err(MigrationError::OutOfOrderVersion(v)) => apply_all_spec(
                    old(self)@,
                    migration_views(ms@),
                ).1 matches RunnerOutcome::Unordered(k) && v as nat == migration_views(
                    ms@,
                )[k].version,
                Err(MigrationError::SchemaFailure(v, d)) => apply_all_spec(
                    old(self)@,
                    migration_views(ms@),
                ).1 matches RunnerOutcome::Failed(k) && v as nat == migration_views(ms@)[k].version
                    && d@ == migration_views(ms@)[k].description,
            }),
    {
        let ghost msv = migration_views(ms@);
        self.schema.ledger_table = true;
        proof {
            assert(self@ =~~= bootstrap(old(self)@));
        }
        let mut i: usize = 1;
        while i < ms.len()
            invariant
                self@ == bootstrap(old(self)@),
                self@.wf(),
                msv == migration_views(ms@),
                msv.len() == ms@.len(),
                1 <= i,
                i <= msv.len() || msv.len() <= 1,
                msv.len() > 1 ==> first_order_fault(msv, 1) == first_order_fault(
                    msv,
                    if i < msv.len() {
                        i as int
                    } else {
                        msv.len() as int
                    },
                ),
            decreases ms@.len() - i,
        {
            if ms[i].version == ms[i - 1].version {
                assert(list_fault(msv) == Some(i as int));
                return Err(MigrationError::DuplicateVersion(ms[i].version));
            }
            if ms[i].version < ms[i - 1].version {
                assert(list_fault(msv) == Some(i as int));
                return Err(MigrationError::OutOfOrderVersion(ms[i].version));
            }
            i += 1;
        }
        proof {
            assert(list_fault(msv) is None);
        }
        let mut k: usize = 0;
        while k < ms.len()
            invariant
                self@.wf(),
                msv == migration_views(ms@),
                msv.len() == ms@.len(),
                k <= msv.len(),
                list_fault(msv) is None,
                run_from(bootstrap(old(self)@), msv, 0) == run_from(self@, msv, k as int),
                self@.clock + (msv.len() - k) <= u64::MAX,
            decreases ms@.len() - k,
        {
            let ghost pre = self@;
            let version = ms[k].version;
            if !self.ledger_contains(version) {
                let step = ms[k].step;
                match self.apply_step(step) {
                    Ok(()) => {
                        let ts = self.clock;
                        self.ledger.push(
                            MigrationRecord {
                                version: version,
                                description: ms[k].description.clone(),
                                applied_at: ts,
                            },
                        );
                        self.clock = ts + 1;
                        proof {
                            let s2 = apply_step_spec(pre, msv[k as int].step).unwrap();
                            assert(self@ =~~= record_spec(s2, msv[k as int]));
                            lemma_step_preserves_wf(pre, msv[k as int]);
                        }
                    },
                    Err(()) => {
                        proof {
                            assert(run_from(self@, msv, k as int) == (
                                self@,
                                Some(k as int),
                            ));
                        }
                        return Err(
                            MigrationError::SchemaFailure(version, ms[k].description.clone()),
                        );
                    },
                }
            }
            k += 1;
        }
        Ok(())
    }

    /// Runs a full-text query: the entries every one of whose query
    /// tokens occurs among the entry's title or content tokens, in index
    /// order — newest first, since the index is kept sorted by its
    /// owners' `updated_at`. Re-running the same query on an unchanged
    /// store returns the same sequence.
    pub fn search(&self, query: &str) -> (r: Vec<SearchEntry>)
        ensures
            entry_views(r@) == self@.index.filter(
                |e: SearchEntryView| query_matches(e.title, e.content, query@),
            ),
    {
        let mut out: Vec<SearchEntry> = Vec::new();
        let mut k: usize = 0;
        while k < self.index.len()
            invariant
                k <= self.index@.len(),
                entry_views(out@) == entry_views(self.index@).take(k as int).filter(
                    |e: SearchEntryView| query_matches(e.title, e.content, query@),
                ),
            decreases self.index@.len() - k,
        {
            let e = &self.index[k];
            let hit = text_matches(e.title.as_str(), e.content.as_str(), query);
            if hit {
                out.push(e.clone());
            }
            proof {
                reveal(Seq::filter);
                let pred = |ev: SearchEntryView| query_matches(ev.title, ev.content, query@);
                let pre = entry_views(self.index@).take(k as int);
                let ev = self.index@[k as int]@;
                assert(entry_views(self.index@).take(k + 1 as int) =~= pre.push(ev));
                assert(pre.push(ev).drop_last() =~= pre);
                assert(pre.push(ev).drop_last() == pre);
                assert(pre.push(ev).last() == ev);
                if pred(ev) {
                    assert(pre.push(ev).filter(pred) =~= pre.filter(pred).push(ev));
                    assert(entry_views(out@) =~= pre.filter(pred).push(ev));
                } else {
                    assert(pre.push(ev).filter(pred) =~= pre.filter(pred));
                }
            }
            k += 1;
        }
        proof {
            assert(entry_views(self.index@).take(self.index@.len() as int) =~= entry_views(
                self.index@,
            ));
        }
        out
    }


    /// Inserts or replaces the index entry under the given key; the new
    /// entry, carrying the freshest timestamp, goes to the front.
    fn index_upsert(&mut self, t: ItemType, id: String, title: String, content: String, ts: u64)
        ensures
            final(self)@ == (StoreView {
                index: seq![
                    SearchEntryView {
                        item_type: t,
                        item_id: id@,
                        title: title@,
                        content: content@,
                        updated_at: ts as nat,
                    },
                ] + remove_key(old(self)@.index, t, id@),
                ..old(self)@
            }),
    {
        self.index_delete(t, &id);
        let e = SearchEntry { item_type: t, item_id: id, title, content, updated_at: ts };
        self.index.insert(0, e);
        proof {
            assert(self@ =~= (StoreView {
                index: seq![
                    SearchEntryView {
                        item_type: t,
                        item_id: id@,
                        title: title@,
                        content: content@,
                        updated_at: ts as nat,
                    },
                ] + remove_key(old(self)@.index, t, id@),
                ..old(self)@
            }));
        }
    }
}

} // verus!
