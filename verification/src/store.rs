use vstd::prelude::*;
use vstd::string::StringExecFns;
use crate::models::{NewTask, StoreError, Task, TaskPatch};
use uuid::Uuid;
use time::OffsetDateTime;

verus! {

// ---------------------------------------------------------------------
// The mathematical model of a record set: a sequence of tasks, newest
// first. Every store operation is specified as a function on it.
// ---------------------------------------------------------------------

/// Does the record set hold a task with this identifier?
pub open spec fn contains_id(s: Seq<Task>, id: u128) -> bool {
    exists|i: int| 0 <= i < s.len() && s[i].id == id
}

/// Index of the task with this identifier (unique when ids are unique).
pub open spec fn index_of(s: Seq<Task>, id: u128) -> int {
    choose|i: int| 0 <= i < s.len() && s[i].id == id
}

/// Newest first: creation timestamps never increase along the sequence.
pub open spec fn newest_first(s: Seq<Task>) -> bool {
    forall|i: int, j: int| 0 <= i < j < s.len() ==> s[i].created_at >= s[j].created_at
}

/// No two records share an identifier.
pub open spec fn unique_ids(s: Seq<Task>) -> bool {
    forall|i: int, j: int| 0 <= i < j < s.len() ==> s[i].id != s[j].id
}

/// A record on its own: its update timestamp never precedes its creation.
pub open spec fn task_wf(t: Task) -> bool {
    t.updated_at >= t.created_at
}

/// Where a record created at `ts` lands in a newest-first sequence:
/// before the first record that is not newer than `ts`, so records of
/// equal age keep the more recently created one in front.
pub open spec fn insert_pos(s: Seq<Task>, ts: i128) -> int
    decreases s.len(),
{
    if s.len() == 0 {
        0
    } else if ts >= s[0].created_at {
        0
    } else {
        1 + insert_pos(s.drop_first(), ts)
    }
}

/// The record a fresh creation persists: not completed, both timestamps
/// equal to the moment of creation.
pub open spec fn mk_task(id: u128, title: String, now: i128) -> Task {
    Task { id, title, completed: false, created_at: now, updated_at: now }
}

/// A patch merged into an existing record: supplied fields replace the
/// old values, absent fields keep them; the identifier and the creation
/// timestamp never change; the update timestamp is refreshed to `now`
/// but never moves backwards.
pub open spec fn merged(t: Task, p: TaskPatch, now: i128) -> Task {
    Task {
        id: t.id,
        title: match p.title {
            Option::Some(s) => s,
            Option::None => t.title,
        },
        completed: match p.completed {
            Option::Some(c) => c,
            Option::None => t.completed,
        },
        created_at: t.created_at,
        updated_at: if now >= t.updated_at {
            now
        } else {
            t.updated_at
        },
    }
}

/// The record set after a creation.
pub open spec fn create_model(s: Seq<Task>, t: Task) -> Seq<Task> {
    s.insert(insert_pos(s, t.created_at), t)
}

/// The record a lookup returns, if any.
pub open spec fn get_model(s: Seq<Task>, id: u128) -> Option<Task> {
    if contains_id(s, id) {
        Option::Some(s[index_of(s, id)])
    } else {
        Option::None
    }
}

/// The record set after a patch: only the targeted record changes.
pub open spec fn patch_model(s: Seq<Task>, id: u128, p: TaskPatch, now: i128) -> Seq<Task> {
    if contains_id(s, id) {
        s.update(index_of(s, id), merged(s[index_of(s, id)], p, now))
    } else {
        s
    }
}

/// The record set after a deletion.
pub open spec fn delete_model(s: Seq<Task>, id: u128) -> Seq<Task> {
    if contains_id(s, id) {
        s.remove(index_of(s, id))
    } else {
        s
    }
}

// ---------------------------------------------------------------------
// Facts about the model, used to verify the store's operations.
// ---------------------------------------------------------------------

/// The insertion point never leaves the sequence.
pub(crate) proof fn lemma_insert_pos_range(s: Seq<Task>, ts: i128)
    ensures
        0 <= insert_pos(s, ts) <= s.len(),
    decreases s.len(),
{
    if s.len() == 0 {
    } else if ts >= s[0].created_at {
    } else {
        lemma_insert_pos_range(s.drop_first(), ts);
    }
}

/// The insertion point is the first position not strictly newer than `ts`.
pub(crate) proof fn lemma_insert_pos_at(s: Seq<Task>, ts: i128, i: int)
    requires
        0 <= i <= s.len(),
        forall|k: int| 0 <= k < i ==> s[k].created_at > ts,
        i == s.len() || ts >= s[i].created_at,
    ensures
        insert_pos(s, ts) == i,
    decreases i,
{
    if i == 0 {
    } else {
        let s1 = s.drop_first();
        assert(s[0].created_at > ts);
        assert forall|k: int| 0 <= k < i - 1 implies s1[k].created_at > ts by {
            assert(s1[k] == s[k + 1]);
        }
        if i - 1 < s1.len() {
            assert(s1[i - 1] == s[i]);
        }
        lemma_insert_pos_at(s1, ts, i - 1);
    }
}

/// Inserting a fresh record at its insertion point keeps the sequence
/// newest first and its identifiers unique.
proof fn lemma_insert_keeps_shape(s: Seq<Task>, t: Task, pos: int)
    requires
        newest_first(s),
        unique_ids(s),
        0 <= pos <= s.len(),
        forall|k: int| 0 <= k < pos ==> s[k].created_at > t.created_at,
        pos == s.len() || t.created_at >= s[pos].created_at,
        forall|k: int| 0 <= k < s.len() ==> s[k].id != t.id,
    ensures
        newest_first(s.insert(pos, t)),
        unique_ids(s.insert(pos, t)),
{
    s.insert_ensures(pos, t);
    let s2 = s.insert(pos, t);
    assert forall|i: int, j: int| 0 <= i < j < s2.len() implies s2[i].created_at
        >= s2[j].created_at by {
        if i < pos && j < pos {
        } else if i < pos && j == pos {
        } else if i < pos && j > pos {
            assert(s2[j] == s[j - 1]);
        } else if i == pos {
            assert(s2[j] == s[j - 1]);
            assert(s[pos].created_at >= s[j - 1].created_at);
        } else {
            assert(s2[i] == s[i - 1]);
            assert(s2[j] == s[j - 1]);
        }
    }
    assert forall|i: int, j: int| 0 <= i < j < s2.len() implies s2[i].id != s2[j].id by {
        if i < pos && j > pos {
            assert(s2[j] == s[j - 1]);
        } else if i == pos {
            assert(s2[j] == s[j - 1]);
        } else if j == pos {
            assert(s2[i] == s[i]);
        } else if i > pos {
            assert(s2[i] == s[i - 1]);
            assert(s2[j] == s[j - 1]);
        }
    }
}

// ---------------------------------------------------------------------
// Outside calls the store depends on: identifier and clock sources.
// ---------------------------------------------------------------------

/// Relies on `uuid::Uuid::new_v4`: a freshly drawn random version-4
/// UUID, taken as its 128-bit value through `Uuid::as_u128`. Nothing is
/// promised of the draw except that the fixed version and variant bits
/// make the value nonzero, so it never collides with the all-zero nil
/// sentinel that stands for an unparseable identifier.
#[verifier::external_body]
fn fresh_task_id() -> (r: u128)
    ensures
        r != 0,
{
    Uuid::new_v4().as_u128()
}

/// Relies on `time::OffsetDateTime::now_utc`: the current wall-clock
/// instant, taken as nanoseconds since the Unix epoch through
/// `unix_timestamp_nanos`. Nothing is promised of the value: the clock
/// may move either way between calls.
#[verifier::external_body]
fn now_timestamp_nanos() -> (r: i128) {
    OffsetDateTime::now_utc().unix_timestamp_nanos()
}

// ---------------------------------------------------------------------
// The store.
// ---------------------------------------------------------------------

/// The task store: live records newest first, together with every
/// identifier it ever assigned. Identifiers are never reused, not even
/// after the record they named was deleted.
pub struct Store {
    tasks: Vec<Task>,
    used_ids: Vec<u128>,
}

impl View for Store {
    type V = Seq<Task>;

    /// The live records, newest first.
    closed spec fn view(&self) -> Seq<Task> {
        self.tasks@
    }
}

impl Store {
    /// Every identifier the store ever assigned, in order of assignment.
    pub closed spec fn used(&self) -> Seq<u128> {
        self.used_ids@
    }

    /// Well-formedness: records newest first, identifiers unique and all
    /// recorded as used, and no record updated before it was created.
    pub open spec fn wf(&self) -> bool {
        &&& newest_first(self@)
        &&& unique_ids(self@)
        &&& forall|i: int|
            0 <= i < self@.len() ==> task_wf(#[trigger] self@[i]) && self.used().contains(
                self@[i].id,
            )
    }

    /// An empty store: no records, no identifiers handed out yet.
    pub fn new() -> (s: Store)
        ensures
            s.wf(),
            s@ == Seq::<Task>::empty(),
            s.used() == Seq::<u128>::empty(),
    {
        Store { tasks: Vec::new(), used_ids: Vec::new() }
    }

    /// Prepares the backing record set. The in-memory set needs no
    /// preparation and the call is idempotent, so it always succeeds
    /// and changes nothing.
    pub fn migrate(&self) -> (r: Result<(), StoreError>)
        ensures
            r is Ok,
    {
        Ok(())
    }

    /// Position of the record with this identifier, if it exists.
    fn find(&self, id: u128) -> (r: Option<usize>)
        ensures
            match r {
                Option::Some(i) => i < self@.len() && self@[i as int].id == id,
                Option::None => !contains_id(self@, id),
            },
    {
        let mut i: usize = 0;
        while i < self.tasks.len()
            invariant
                i <= self.tasks.len(),
                forall|k: int| 0 <= k < i ==> self.tasks@[k].id != id,
            decreases self.tasks.len() - i,
        {
            if self.tasks[i].id == id {
                return Option::Some(i);
            }
            i = i + 1;
        }
        Option::None
    }

    /// The record with this identifier, or `NotFound` exactly when no
    /// such record exists. Reading changes nothing.
    pub fn get(&self, id: u128) -> (r: Result<Task, StoreError>)
        requires
            self.wf(),
        ensures
            r is Ok <==> contains_id(self@, id),
            match r {
                Result::Ok(t) => get_model(self@, id) == Option::Some(t),
                Result::Err(e) => e == StoreError::NotFound,
            },
    {
        match self.find(id) {
            Option::Some(i) => {
                proof {
                    crate::laws::lemma_index_of_unique(self@, id, i as int);
                }
                let t = &self.tasks[i];
                Ok(
                    Task {
                        id: t.id,
                        title: t.title.clone(),
                        completed: t.completed,
                        created_at: t.created_at,
                        updated_at: t.updated_at,
                    },
                )
            },
            Option::None => Err(StoreError::NotFound),
        }
    }

    /// All records, newest first. Listing never fails and changes
    /// nothing; an empty store yields an empty sequence.
    pub fn list(&self) -> (r: Result<Vec<Task>, StoreError>)
        ensures
            r matches Result::Ok(v) && v@ == self@,
    {
        let mut out: Vec<Task> = Vec::new();
        let mut i: usize = 0;
        while i < self.tasks.len()
            invariant
                i <= self.tasks.len(),
                out@.len() == i,
                forall|k: int| 0 <= k < i ==> out@[k] == self.tasks@[k],
            decreases self.tasks.len() - i,
        {
            let t = &self.tasks[i];
            out.push(
                Task {
                    id: t.id,
                    title: t.title.clone(),
                    completed: t.completed,
                    created_at: t.created_at,
                    updated_at: t.updated_at,
                },
            );
            i = i + 1;
        }
        proof {
            assert(out@ =~= self@);
        }
        Ok(out)
    }

    /// Was this identifier ever assigned?
    fn id_used(ids: &Vec<u128>, id: u128) -> (r: bool)
        ensures
            r == ids@.contains(id),
    {
        let mut i: usize = 0;
        while i < ids.len()
            invariant
                i <= ids.len(),
                forall|k: int| 0 <= k < i ==> ids@[k] != id,
            decreases ids.len() - i,
        {
            if ids[i] == id {
                return true;
            }
            i = i + 1;
        }
        proof {
            assert(!ids@.contains(id));
        }
        false
    }

    /// The position where a record created at `ts` belongs in a
    /// newest-first sequence.
    fn insert_index(tasks: &Vec<Task>, ts: i128) -> (r: usize)
        ensures
            r <= tasks@.len(),
            forall|k: int| 0 <= k < r ==> tasks@[k].created_at > ts,
            r == tasks@.len() || ts >= tasks@[r as int].created_at,
            r == insert_pos(tasks@, ts),
    {
        let mut i: usize = 0;
        while i < tasks.len()
            invariant
                i <= tasks.len(),
                forall|k: int| 0 <= k < i ==> tasks@[k].created_at > ts,
            decreases tasks.len() - i,
        {
            if ts >= tasks[i].created_at {
                proof {
                    lemma_insert_pos_at(tasks@, ts, i as int);
                }
                return i;
            }
            i = i + 1;
        }
        proof {
            lemma_insert_pos_at(tasks@, ts, tasks@.len() as int);
        }
        i
    }

    /// Creation from given parts: persists a fresh record built from the
    /// supplied title, identifier and instant. The all-zero identifier
    /// is the reserved nil sentinel and is never assigned. Succeeds
    /// exactly when the identifier was never assigned before; an
    /// already-assigned identifier is a constraint violation, reported
    /// as a storage fault, and changes nothing.
    pub fn create_with(&mut self, new: NewTask, id: u128, now: i128) -> (r: Result<
        Task,
        StoreError,
    >)
        requires
            old(self).wf(),
            id != 0,
        ensures
            final(self).wf(),
            r is Ok <==> !old(self).used().contains(id),
            match r {
                Result::Ok(t) => {
                    &&& t == mk_task(id, new.title, now)
                    &&& final(self)@ == create_model(old(self)@, t)
                    &&& final(self).used() == old(self).used().push(id)
                },
                Result::Err(e) => {
                    &&& e is StorageFault
                    &&& final(self)@ == old(self)@
                    &&& final(self).used() == old(self).used()
                },
            },
    {
        if Self::id_used(&self.used_ids, id) {
            return Err(StoreError::StorageFault(String::from_str("identifier already assigned")));
        }
        let pos = Self::insert_index(&self.tasks, now);
        let stored = Task {
            id,
            title: new.title.clone(),
            completed: false,
            created_at: now,
            updated_at: now,
        };
        proof {
            broadcast use vstd::seq_lib::lemma_seq_contains_after_push;

            let s = self@;
            let t = mk_task(id, new.title, now);
            assert(stored == t);
            assert forall|k: int| 0 <= k < s.len() implies s[k].id != id by {
                assert(self.used().contains(s[k].id));
            }
            lemma_insert_keeps_shape(s, t, pos as int);
            s.insert_ensures(pos as int, t);
        }
        self.used_ids.push(id);
        self.tasks.insert(pos, stored);
        proof {
            broadcast use vstd::seq_lib::lemma_seq_contains_after_push;

            let s2 = self@;
            let pos = pos as int;
            assert forall|i: int| 0 <= i < s2.len() implies task_wf(#[trigger] s2[i])
                && self.used().contains(s2[i].id) by {
                if i < pos {
                    assert(s2[i] == old(self)@[i]);
                    assert(old(self).used().contains(s2[i].id));
                } else if i == pos {
                } else {
                    assert(s2[i] == old(self)@[i - 1]);
                    assert(old(self).used().contains(s2[i].id));
                }
            }
        }
        Ok(Task { id, title: new.title, completed: false, created_at: now, updated_at: now })
    }

    /// Creation: draws a fresh identifier and reads the clock, then
    /// persists a record whose title is the supplied one, which is not
    /// completed, and whose two timestamps are equal. Whatever the draw,
    /// a returned record carries an identifier never assigned before;
    /// only a collision with an already-assigned identifier — a
    /// constraint violation in the record set — makes it fail, and then
    /// nothing changes. On a store that has assigned no identifier yet
    /// no collision is possible, so creation is owed whatever the draw.
    pub fn create(&mut self, new: NewTask) -> (r: Result<Task, StoreError>)
        requires
            old(self).wf(),
        ensures
            final(self).wf(),
            r is Err ==> old(self).used().len() > 0,
            match r {
                Result::Ok(t) => {
                    &&& t == mk_task(t.id, new.title, t.created_at)
                    &&& t.completed == false
                    &&& t.updated_at == t.created_at
                    &&& t.id != 0
                    &&& !old(self).used().contains(t.id)
                    &&& final(self)@ == create_model(old(self)@, t)
                    &&& final(self).used() == old(self).used().push(t.id)
                },
                Result::Err(e) => {
                    &&& e is StorageFault
                    &&& final(self)@ == old(self)@
                    &&& final(self).used() == old(self).used()
                },
            },
    {
        let id = fresh_task_id();
        let now = now_timestamp_nanos();
        self.create_with(new, id, now)
    }

    /// Partial update from given parts: at the given instant, merges the
    /// patch into the record with this identifier. Succeeds exactly when
    /// the record exists; then only that record changes, to the merge of
    /// its old value and the patch, and the whole new value is returned.
    /// The update timestamp is refreshed even when the patch supplies no
    /// field or only the values already held. A missing record is
    /// `NotFound` and changes nothing.
    pub fn patch_with(&mut self, id: u128, p: TaskPatch, now: i128) -> (r: Result<
        Task,
        StoreError,
    >)
        requires
            old(self).wf(),
        ensures
            final(self).wf(),
            final(self).used() == old(self).used(),
            r is Ok <==> contains_id(old(self)@, id),
            match r {
                Result::Ok(t) => {
                    &&& t == merged(old(self)@[index_of(old(self)@, id)], p, now)
                    &&& final(self)@ == patch_model(old(self)@, id, p, now)
                },
                Result::Err(e) => e == StoreError::NotFound && final(self)@ == old(self)@,
            },
    {
        match self.find(id) {
            Option::None => Err(StoreError::NotFound),
            Option::Some(i) => {
                proof {
                    crate::laws::lemma_index_of_unique(self@, id, i as int);
                }
                let t = &self.tasks[i];
                let new_title = match p.title {
                    Option::Some(s) => s,
                    Option::None => t.title.clone(),
                };
                let new_completed = match p.completed {
                    Option::Some(c) => c,
                    Option::None => t.completed,
                };
                let new_updated = if now >= t.updated_at {
                    now
                } else {
                    t.updated_at
                };
                let m = Task {
                    id: t.id,
                    title: new_title,
                    completed: new_completed,
                    created_at: t.created_at,
                    updated_at: new_updated,
                };
                proof {
                    assert(m == merged(old(self)@[i as int], p, now));
                }
                self.tasks[i] = m;
                proof {
                    let s = old(self)@;
                    let s2 = self@;
                    assert forall|a: int, b: int| 0 <= a < b < s2.len() implies s2[a].created_at
                        >= s2[b].created_at && s2[a].id != s2[b].id by {
                        assert(s2[a].created_at == s[a].created_at && s2[a].id == s[a].id);
                        assert(s2[b].created_at == s[b].created_at && s2[b].id == s[b].id);
                    }
                    assert forall|k: int| 0 <= k < s2.len() implies task_wf(#[trigger] s2[k])
                        && self.used().contains(s2[k].id) by {
                        assert(task_wf(s[k]) && self.used().contains(s[k].id));
                    }
                }
                let t2 = &self.tasks[i];
                Ok(
                    Task {
                        id: t2.id,
                        title: t2.title.clone(),
                        completed: t2.completed,
                        created_at: t2.created_at,
                        updated_at: t2.updated_at,
                    },
                )
            },
        }
    }

    /// Partial update: reads the clock, then merges the patch into the
    /// record with this identifier as `patch_with` does. Succeeds exactly
    /// when the record exists; the returned record is the merge of the
    /// old one and the patch at an instant no earlier than the record's
    /// previous update.
    pub fn patch(&mut self, id: u128, p: TaskPatch) -> (r: Result<Task, StoreError>)
        requires
            old(self).wf(),
        ensures
            final(self).wf(),
            final(self).used() == old(self).used(),
            r is Ok <==> contains_id(old(self)@, id),
            match r {
                Result::Ok(t) => {
                    &&& t.updated_at >= old(self)@[index_of(old(self)@, id)].updated_at
                    &&& t == merged(old(self)@[index_of(old(self)@, id)], p, t.updated_at)
                    &&& final(self)@ == patch_model(old(self)@, id, p, t.updated_at)
                },
                Result::Err(e) => e == StoreError::NotFound && final(self)@ == old(self)@,
            },
    {
        let now = now_timestamp_nanos();
        let r = self.patch_with(id, p, now);
        proof {
            if contains_id(old(self)@, id) {
                let t0 = old(self)@[index_of(old(self)@, id)];
                assert(merged(t0, p, now) == merged(t0, p, merged(t0, p, now).updated_at));
            }
        }
        r
    }

    /// Deletion: removes the record with this identifier for good.
    /// Succeeds exactly when the record exists — a second deletion of
    /// the same identifier finds nothing left and is `NotFound` — and
    /// the identifier stays assigned forever.
    pub fn delete(&mut self, id: u128) -> (r: Result<(), StoreError>)
        requires
            old(self).wf(),
        ensures
            final(self).wf(),
            final(self).used() == old(self).used(),
            r is Ok <==> contains_id(old(self)@, id),
            match r {
                Result::Ok(_) => final(self)@ == delete_model(old(self)@, id),
                Result::Err(e) => e == StoreError::NotFound && final(self)@ == old(self)@,
            },
    {
        match self.find(id) {
            Option::None => Err(StoreError::NotFound),
            Option::Some(i) => {
                proof {
                    crate::laws::lemma_index_of_unique(self@, id, i as int);
                    self@.remove_ensures(i as int);
                }
                self.tasks.remove(i);
                proof {
                    let s = old(self)@;
                    let s2 = self@;
                    assert forall|a: int, b: int| 0 <= a < b < s2.len() implies s2[a].created_at
                        >= s2[b].created_at && s2[a].id != s2[b].id by {
                        let a0: int = if a < i { a } else { a + 1 };
                        let b0: int = if b < i { b } else { b + 1 };
                        assert(s2[a] == s[a0]);
                        assert(s2[b] == s[b0]);
                    }
                    assert forall|k: int| 0 <= k < s2.len() implies task_wf(#[trigger] s2[k])
                        && self.used().contains(s2[k].id) by {
                        let k0: int = if k < i { k } else { k + 1 };
                        assert(s2[k] == s[k0]);
                        assert(task_wf(s[k0]) && self.used().contains(s[k0].id));
                    }
                }
                Ok(())
            },
        }
    }
}

} // verus!
