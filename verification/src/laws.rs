use vstd::prelude::*;
use crate::models::{Task, TaskPatch};
use crate::store::{
    contains_id, create_model, delete_model, get_model, index_of, insert_pos, merged, patch_model,
    unique_ids,
};

verus! {

/// Identifier lookup is deterministic where identifiers are unique: the
/// looked-up index is the index of any witness.
pub proof fn lemma_index_of_unique(s: Seq<Task>, id: u128, i: int)
    requires
        unique_ids(s),
        0 <= i < s.len(),
        s[i].id == id,
    ensures
        contains_id(s, id),
        index_of(s, id) == i,
{
    assert(contains_id(s, id));
    let j = index_of(s, id);
    if j < i {
        assert(s[j].id != s[i].id);
    } else if j > i {
        assert(s[i].id != s[j].id);
    }
}

/// A lookup right after a creation returns the created record,
/// field for field.
pub proof fn lemma_get_after_create(s: Seq<Task>, t: Task)
    requires
        !contains_id(s, t.id),
    ensures
        get_model(create_model(s, t), t.id) == Option::Some(t),
{
    crate::store::lemma_insert_pos_range(s, t.created_at);
    let pos = insert_pos(s, t.created_at);
    s.insert_ensures(pos, t);
    let s2 = create_model(s, t);
    assert(s2[pos] == t);
    assert(contains_id(s2, t.id));
    let j = index_of(s2, t.id);
    assert(0 <= j < s2.len() && s2[j].id == t.id);
    if j < pos {
        assert(s2[j] == s[j]);
        assert(contains_id(s, t.id));
    } else if j > pos {
        assert(s2[j] == s[j - 1]);
        assert(contains_id(s, t.id));
    }
}

/// A creation inserts the created record unchanged at its place and
/// adds exactly one record: a later listing holds it, field for field.
pub proof fn lemma_create_then_list_round_trip(s: Seq<Task>, t: Task)
    ensures
        create_model(s, t).len() == s.len() + 1,
        0 <= insert_pos(s, t.created_at) <= s.len(),
        create_model(s, t)[insert_pos(s, t.created_at)] == t,
        create_model(s, t).contains(t),
{
    crate::store::lemma_insert_pos_range(s, t.created_at);
    let pos = insert_pos(s, t.created_at);
    s.insert_ensures(pos, t);
    assert(create_model(s, t)[pos] == t);
}

/// A patch changes only the targeted record, and that record only in
/// the supplied fields and its update timestamp. The identifier and the
/// creation timestamp stay; the update timestamp never moves back; all
/// other records read exactly as before.
pub proof fn lemma_patch_changes_only(s: Seq<Task>, id: u128, p: TaskPatch, now: i128)
    requires
        unique_ids(s),
        contains_id(s, id),
    ensures
        ({
            let t0 = s[index_of(s, id)];
            let m = merged(t0, p, now);
            let s2 = patch_model(s, id, p, now);
            &&& s2.len() == s.len()
            &&& get_model(s2, id) == Option::Some(m)
            &&& m.id == t0.id
            &&& m.created_at == t0.created_at
            &&& m.updated_at >= t0.updated_at
            &&& p.title is None ==> m.title == t0.title
            &&& p.completed is None ==> m.completed == t0.completed
            &&& forall|x: u128| x != id ==> get_model(s2, x) == get_model(s, x)
        }),
{
    let i = index_of(s, id);
    assert(0 <= i < s.len() && s[i].id == id);
    let t0 = s[i];
    let m = merged(t0, p, now);
    let s2 = patch_model(s, id, p, now);
    assert(s2 == s.update(i, m));
    assert(s2[i] == m);
    assert(contains_id(s2, id));
    let j = index_of(s2, id);
    assert(0 <= j < s2.len() && s2[j].id == id);
    if j != i {
        assert(s2[j] == s[j]);
        if j < i {
            assert(s[j].id != s[i].id);
        } else {
            assert(s[i].id != s[j].id);
        }
    }
    assert forall|x: u128| x != id implies get_model(s2, x) == get_model(s, x) by {
        if contains_id(s, x) {
            let a = index_of(s, x);
            assert(0 <= a < s.len() && s[a].id == x);
            assert(a != i);
            assert(s2[a] == s[a]);
            assert(contains_id(s2, x));
            let b = index_of(s2, x);
            assert(0 <= b < s2.len() && s2[b].id == x);
            assert(b != i);
            assert(s2[b] == s[b]);
            if b < a {
                assert(s[b].id != s[a].id);
            } else if b > a {
                assert(s[a].id != s[b].id);
            }
        } else {
            if contains_id(s2, x) {
                let b = index_of(s2, x);
                assert(0 <= b < s2.len() && s2[b].id == x);
                assert(b != i);
                assert(s2[b] == s[b]);
                assert(contains_id(s, x));
            }
        }
    }
}

/// After a deletion the identifier names nothing: a lookup misses, and
/// a second deletion of the same identifier misses too. Every other
/// record reads exactly as before.
pub proof fn lemma_delete_then_gone(s: Seq<Task>, id: u128)
    requires
        unique_ids(s),
        contains_id(s, id),
    ensures
        ({
            let s2 = delete_model(s, id);
            &&& s2.len() == s.len() - 1
            &&& !contains_id(s2, id)
            &&& forall|x: u128| x != id ==> get_model(s2, x) == get_model(s, x)
        }),
{
    let i = index_of(s, id);
    assert(0 <= i < s.len() && s[i].id == id);
    let s2 = delete_model(s, id);
    s.remove_ensures(i);
    assert(s2 == s.remove(i));
    assert forall|k: int| 0 <= k < s2.len() implies s2[k].id != id by {
        let k0: int = if k < i {
            k
        } else {
            k + 1
        };
        assert(s2[k] == s[k0]);
        if k0 < i {
            assert(s[k0].id != s[i].id);
        } else {
            assert(s[i].id != s[k0].id);
        }
    }
    assert forall|x: u128| x != id implies get_model(s2, x) == get_model(s, x) by {
        if contains_id(s, x) {
            let a = index_of(s, x);
            assert(0 <= a < s.len() && s[a].id == x);
            assert(a != i);
            let a2: int = if a < i {
                a
            } else {
                a - 1
            };
            assert(s2[a2] == s[a]);
            assert(contains_id(s2, x));
            let b = index_of(s2, x);
            assert(0 <= b < s2.len() && s2[b].id == x);
            let b0: int = if b < i {
                b
            } else {
                b + 1
            };
            assert(s2[b] == s[b0]);
            if b0 < a {
                assert(s[b0].id != s[a].id);
            } else if b0 > a {
                assert(s[a].id != s[b0].id);
            }
            assert(get_model(s2, x) == Option::Some(s[a]));
        } else {
            if contains_id(s2, x) {
                let b = index_of(s2, x);
                assert(0 <= b < s2.len() && s2[b].id == x);
                let b0: int = if b < i {
                    b
                } else {
                    b + 1
                };
                assert(s2[b] == s[b0]);
                assert(contains_id(s, x));
            }
        }
    }
}

/// Three creations in order of age end newest first: creating a, then
/// b, then c, each no older than the one before, lists them as
/// c, b, a.
pub proof fn lemma_three_creates_newest_first(a: Task, b: Task, c: Task)
    requires
        a.created_at <= b.created_at,
        b.created_at <= c.created_at,
    ensures
        create_model(create_model(create_model(Seq::empty(), a), b), c) == seq![c, b, a],
{
    let s0 = Seq::<Task>::empty();
    assert(insert_pos(s0, a.created_at) == 0);
    let s1 = create_model(s0, a);
    assert(s1 =~= seq![a]);
    assert(insert_pos(s1, b.created_at) == 0);
    let s2 = create_model(s1, b);
    assert(s2 =~= seq![b, a]);
    assert(insert_pos(s2, c.created_at) == 0);
    let s3 = create_model(s2, c);
    assert(s3 =~= seq![c, b, a]);
}

} // verus!
