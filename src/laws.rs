use vstd::prelude::*;
use crate::task::{uuid_text, Status, TaskView};
use crate::storage::{
    StoreError, add_result, as_stored, deleted, has_tag, lemma_lookup, load_result, lookup, merged, newest_first,
    normalized_tags, position, slot, status_is, storable, store_ok, tag_pairs, tag_row_texts, tag_table,
    tags_for, update_result,
};
use crate::row::{decode, encode, TaskRowView};

verus! {

broadcast use vstd::seq_lib::group_seq_properties;

/// Adding a valid task under an identifier that is not yet stored succeeds,
/// and looking that identifier up afterwards gives the task back, equal in
/// every field.
pub proof fn lemma_add_then_get(s: Seq<TaskView>, t: TaskView)
    requires
        store_ok(s),
        storable(t),
        lookup(s, t.id) is None,
    ensures
        add_result(s, t) is Ok,
        lookup(add_result(s, t)->Ok_0, t.id) == Some(t),
{
    assert(as_stored(t) == t);
    crate::storage::lemma_add_keeps_store_ok(s, t);
    let n = add_result(s, t)->Ok_0;
    let p = crate::storage::slot(s, t.created_at, 0);
    crate::storage::lemma_slot(s, t.created_at, 0);
    assert(n[p] == t);
    lemma_lookup(n, t.id);
}

/// Updating a stored task with a valid task that shares its identifier and
/// creation time succeeds, and a lookup afterwards gives exactly the new
/// task, not a mix of the two.
pub proof fn lemma_update_then_get(s: Seq<TaskView>, t: TaskView)
    requires
        store_ok(s),
        storable(t),
        lookup(s, t.id) is Some,
        lookup(s, t.id)->0.created_at == t.created_at,
    ensures
        update_result(s, t) is Ok,
        lookup(update_result(s, t)->Ok_0, t.id) == Some(t),
{
    crate::storage::lemma_position(s, t.id, 0);
    crate::storage::lemma_update_keeps_store_ok(s, t);
    let p = position(s, t.id, 0);
    let n = update_result(s, t)->Ok_0;
    assert(merged(s[p], t) == t);
    assert(n[p] == t);
    lemma_lookup(n, t.id);
}

proof fn lemma_tag_table_ids(s: Seq<TaskView>, id: u128)
    requires
        forall|i: int| 0 <= i < s.len() ==> s[i].id != id,
    ensures
        forall|k: int| 0 <= k < tag_table(s).len() ==> (#[trigger] tag_table(s)[k]).0 != id,
    decreases s.len(),
{
    if s.len() > 0 {
        let rest = s.drop_last();
        lemma_tag_table_ids(rest, id);
        let last = tag_pairs(s.last());
        assert(tag_table(s) == tag_table(rest) + last);
        assert forall|k: int| 0 <= k < tag_table(s).len() implies (#[trigger] tag_table(s)[k]).0 != id by {
            if k >= tag_table(rest).len() {
                assert(tag_table(s)[k] == last[k - tag_table(rest).len()]);
            }
        }
    }
}

/// After a delete, the identifier is not found, and no pair of the tag
/// table refers to it.
pub proof fn lemma_delete_then_get(s: Seq<TaskView>, id: u128)
    requires
        store_ok(s),
    ensures
        lookup(deleted(s, id), id) is None,
        forall|k: int|
            0 <= k < tag_table(deleted(s, id)).len() ==> (#[trigger] tag_table(deleted(s, id))[k]).0 != id,
{
    crate::storage::lemma_position(s, id, 0);
    crate::storage::lemma_delete_keeps_store_ok(s, id);
    let n = deleted(s, id);
    let p = position(s, id, 0);
    assert forall|i: int| 0 <= i < n.len() implies n[i].id != id by {
        if p < s.len() {
            if i >= p {
                assert(n[i] == s[i + 1]);
            }
        }
    }
    lemma_lookup(n, id);
    lemma_tag_table_ids(n, id);
}

/// The status filter keeps exactly the tasks with that status: a task
/// without a status is never kept.
pub proof fn lemma_status_filter(s: Seq<TaskView>, status: Status)
    ensures
        forall|i: int|
            0 <= i < s.filter(status_is(status)).len() ==> (#[trigger] s.filter(status_is(status))[i]).status
                == Some(status),
        forall|i: int|
            0 <= i < s.len() ==> (s.filter(status_is(status)).contains(#[trigger] s[i]) <==> s[i].status
                == Some(status)),
{
    let f = s.filter(status_is(status));
    assert forall|i: int| 0 <= i < f.len() implies (#[trigger] f[i]).status == Some(status) by {
        s.lemma_filter_pred(status_is(status), i);
    }
    assert forall|i: int| 0 <= i < s.len() implies (f.contains(#[trigger] s[i]) <==> s[i].status == Some(status)) by {
        if s[i].status == Some(status) {
            s.lemma_filter_contains(status_is(status), i);
        }
        if f.contains(s[i]) {
            let j = choose|j: int| 0 <= j < f.len() && f[j] == s[i];
            s.lemma_filter_pred(status_is(status), j);
        }
    }
}

/// The tag filter keeps a task if and only if its tags hold the tag.
pub proof fn lemma_tag_filter(s: Seq<TaskView>, tag: Seq<char>)
    ensures
        forall|i: int|
            0 <= i < s.len() ==> (s.filter(has_tag(tag)).contains(#[trigger] s[i]) <==> (s[i].tags is Some
                && s[i].tags->0.contains(tag))),
{
    let f = s.filter(has_tag(tag));
    assert forall|i: int| 0 <= i < s.len() implies (f.contains(#[trigger] s[i]) <==> (s[i].tags is Some
        && s[i].tags->0.contains(tag))) by {
        if s[i].tags is Some && s[i].tags->0.contains(tag) {
            s.lemma_filter_contains(has_tag(tag), i);
        }
        if f.contains(s[i]) {
            let j = choose|j: int| 0 <= j < f.len() && f[j] == s[i];
            s.lemma_filter_pred(has_tag(tag), j);
        }
    }
}

/// Filtering a newest-first sequence keeps it newest first.
pub proof fn lemma_filter_newest_first(s: Seq<TaskView>, pred: spec_fn(TaskView) -> bool)
    requires
        newest_first(s),
    ensures
        newest_first(s.filter(pred)),
    decreases s.len(),
{
    if s.len() > 0 {
        let rest = s.drop_last();
        assert(newest_first(rest)) by {
            assert forall|i: int, j: int| 0 <= i < j < rest.len() implies !(#[trigger] rest[i].created_at).before(
                #[trigger] rest[j].created_at,
            ) by {
                assert(rest[i] == s[i] && rest[j] == s[j]);
            }
        }
        lemma_filter_newest_first(rest, pred);
        assert(s == rest.push(s.last()));
        rest.lemma_filter_push(s.last(), pred);
        let f = rest.filter(pred);
        if pred(s.last()) {
            let g = f.push(s.last());
            assert forall|i: int, j: int| 0 <= i < j < g.len() implies !(#[trigger] g[i].created_at).before(
                #[trigger] g[j].created_at,
            ) by {
                if j == g.len() - 1 {
                    assert(f.contains(g[i]));
                    rest.lemma_filter_contains_rev(pred, g[i]);
                    let k = choose|k: int| 0 <= k < rest.len() && rest[k] == g[i];
                    assert(s[k] == g[i]);
                    assert(s[s.len() - 1] == g[j]);
                } else {
                    assert(g[i] == f[i] && g[j] == f[j]);
                }
            }
        }
    }
}

/// The tags of a task as a list, empty when it has none.
pub open spec fn tag_list(t: TaskView) -> Seq<Seq<char>> {
    match t.tags {
        Some(v) => v,
        None => Seq::empty(),
    }
}

proof fn lemma_tags_for_concat(a: Seq<(Seq<char>, Seq<char>)>, b: Seq<(Seq<char>, Seq<char>)>, id: Seq<char>)
    ensures
        tags_for(a + b, id) == tags_for(a, id) + tags_for(b, id),
    decreases b.len(),
{
    if b.len() == 0 {
        assert(a + b =~= a);
        assert(tags_for(a, id) + tags_for(b, id) =~= tags_for(a, id));
    } else {
        assert((a + b).drop_last() =~= a + b.drop_last());
        assert((a + b).last() == b.last());
        lemma_tags_for_concat(a, b.drop_last(), id);
        if b.last().0 == id {
            assert(tags_for(a + b, id) =~= tags_for(a, id) + tags_for(b, id));
        } else {
            assert(tags_for(a + b, id) =~= tags_for(a, id) + tags_for(b, id));
        }
    }
}

proof fn lemma_tags_for_one_task(tags: Seq<Seq<char>>, x: Seq<char>, id: Seq<char>)
    ensures
        tags_for(tags.map_values(|g: Seq<char>| (x, g)), id) == if x == id {
            tags
        } else {
            Seq::empty()
        },
    decreases tags.len(),
{
    let rows = tags.map_values(|g: Seq<char>| (x, g));
    if tags.len() == 0 {
        assert(rows.len() == 0);
        assert(tags =~= Seq::<Seq<char>>::empty());
    } else {
        assert(rows.drop_last() =~= tags.drop_last().map_values(|g: Seq<char>| (x, g)));
        lemma_tags_for_one_task(tags.drop_last(), x, id);
        if x == id {
            assert(tags.drop_last().push(tags.last()) =~= tags);
        }
    }
}

proof fn lemma_tags_for_pairs(t: TaskView, id: Seq<char>)
    ensures
        tags_for(tag_row_texts(tag_pairs(t)), id) == if uuid_text(t.id) == id {
            tag_list(t)
        } else {
            Seq::empty()
        },
{
    let x = uuid_text(t.id);
    match t.tags {
        Some(v) => {
            assert(tag_row_texts(tag_pairs(t)) =~= v.map_values(|g: Seq<char>| (x, g)));
            lemma_tags_for_one_task(v, x, id);
        },
        None => {
            assert(tag_row_texts(tag_pairs(t)) =~= Seq::<(Seq<char>, Seq<char>)>::empty());
        },
    }
}

/// In a store whose identifiers have distinct texts, the tag table gives
/// each task exactly its own tags, and no tags to an identifier text that
/// no task has.
proof fn lemma_tags_for_table(s: Seq<TaskView>)
    requires
        forall|i: int, j: int| 0 <= i < j < s.len() ==> uuid_text(s[i].id) != uuid_text(s[j].id),
    ensures
        forall|k: int|
            0 <= k < s.len() ==> tags_for(tag_row_texts(tag_table(s)), uuid_text(#[trigger] s[k].id)) == tag_list(
                s[k],
            ),
        forall|x: Seq<char>|
            (forall|i: int| 0 <= i < s.len() ==> uuid_text(#[trigger] s[i].id) != x) ==> tags_for(
                tag_row_texts(tag_table(s)),
                x,
            ) == Seq::<Seq<char>>::empty(),
    decreases s.len(),
{
    if s.len() > 0 {
        let rest = s.drop_last();
        lemma_tags_for_table(rest);
        let head = tag_row_texts(tag_table(rest));
        let tail = tag_row_texts(tag_pairs(s.last()));
        assert(tag_row_texts(tag_table(s)) =~= head + tail);
        assert forall|k: int| 0 <= k < s.len() implies tags_for(
            tag_row_texts(tag_table(s)),
            uuid_text(#[trigger] s[k].id),
        ) == tag_list(s[k]) by {
            let x = uuid_text(s[k].id);
            lemma_tags_for_concat(head, tail, x);
            lemma_tags_for_pairs(s.last(), x);
            if k < s.len() - 1 {
                assert(rest[k] == s[k]);
                assert(tags_for(tail, x) =~= Seq::<Seq<char>>::empty());
                assert(tags_for(head, x) + tags_for(tail, x) =~= tags_for(head, x));
            } else {
                assert forall|i: int| 0 <= i < rest.len() implies uuid_text(#[trigger] rest[i].id) != x by {
                    assert(rest[i] == s[i]);
                }
                assert(tags_for(head, x) + tags_for(tail, x) =~= tags_for(tail, x));
            }
        }
        assert forall|x: Seq<char>|
            (forall|i: int| 0 <= i < s.len() ==> uuid_text(#[trigger] s[i].id) != x) implies tags_for(
            tag_row_texts(tag_table(s)),
            x,
        ) == Seq::<Seq<char>>::empty() by {
            lemma_tags_for_concat(head, tail, x);
            lemma_tags_for_pairs(s.last(), x);
            assert forall|i: int| 0 <= i < rest.len() implies uuid_text(#[trigger] rest[i].id) != x by {
                assert(rest[i] == s[i]);
            }
            assert(uuid_text(s[s.len() - 1].id) != x);
            assert(tags_for(head, x) + tags_for(tail, x) =~= Seq::<Seq<char>>::empty());
        }
    }
}

/// The rows that record a store, each of which reads back as its task,
/// together with the store's tag table, load back as the same store.
pub proof fn lemma_rows_load_back(s: Seq<TaskView>, rows: Seq<TaskRowView>)
    requires
        store_ok(s),
        rows.len() == s.len(),
        forall|i: int| 0 <= i < s.len() ==> #[trigger] rows[i] == encode(s[i]),
        forall|i: int| 0 <= i < s.len() ==> decode(#[trigger] rows[i], s[i].tags) == Some(s[i]),
    ensures
        load_result(rows, tag_row_texts(tag_table(s))) == Ok::<Seq<TaskView>, StoreError>(s),
{
    let table = tag_row_texts(tag_table(s));
    assert forall|i: int, j: int| 0 <= i < j < s.len() implies uuid_text(s[i].id) != uuid_text(s[j].id) by {
        assert(decode(rows[i], s[i].tags) == Some(s[i]));
        assert(decode(rows[j], s[j].tags) == Some(s[j]));
    }
    lemma_tags_for_table(s);
    lemma_load_prefix(s, rows, s.len() as int);
    assert(rows.take(s.len() as int) =~= rows);
    assert(s.take(s.len() as int) =~= s);
}

proof fn lemma_load_prefix(s: Seq<TaskView>, rows: Seq<TaskRowView>, n: int)
    requires
        0 <= n <= s.len(),
        store_ok(s),
        rows.len() == s.len(),
        forall|k: int| 0 <= k < s.len() ==> #[trigger] rows[k] == encode(s[k]),
        forall|k: int| 0 <= k < s.len() ==> decode(#[trigger] rows[k], s[k].tags) == Some(s[k]),
        forall|k: int|
            0 <= k < s.len() ==> tags_for(tag_row_texts(tag_table(s)), uuid_text(#[trigger] s[k].id)) == tag_list(
                s[k],
            ),
    ensures
        load_result(rows.take(n), tag_row_texts(tag_table(s))) == Ok::<Seq<TaskView>, StoreError>(s.take(n)),
    decreases n,
{
    let table = tag_row_texts(tag_table(s));
    if n == 0 {
        assert(rows.take(0) =~= Seq::<TaskRowView>::empty());
        assert(s.take(0) =~= Seq::<TaskView>::empty());
    } else {
        let i = n - 1;
        lemma_load_prefix(s, rows, i);
        let t = s[i];
        let prefix = s.take(i);
        assert(rows.take(i + 1).drop_last() =~= rows.take(i));
        assert(rows.take(i + 1).last() == rows[i]);
        assert(storable(t));
        assert(normalized_tags(Some(tag_list(t))) == t.tags);
        assert(tags_for(table, rows[i].id) == tag_list(t));
        assert forall|a: int, b: int| 0 <= a < b < prefix.len() implies prefix[a].id != prefix[b].id by {
            assert(prefix[a] == s[a] && prefix[b] == s[b]);
        }
        lemma_lookup(prefix, t.id);
        assert forall|k: int| 0 <= k < prefix.len() implies prefix[k].id != t.id by {
            assert(prefix[k] == s[k]);
        }
        crate::storage::lemma_slot(prefix, t.created_at, 0);
        let p = slot(prefix, t.created_at, 0);
        if p < i {
            assert(prefix[p] == s[p]);
            assert(!s[p].created_at.before(s[i].created_at));
        }
        assert(as_stored(t) == t);
        assert(prefix.insert(i, t) =~= s.take(i + 1));
    }
}


} // verus!
