use vstd::prelude::*;

use crate::error::LinkError;
use crate::url::{
    create_spec, delete_spec, fresh_row, update_spec, get_or_create_spec, has_id, has_src, id_index, lemma_same_row,
    link_wf, src_index, table_wf, visit_spec, LinkView, TableView,
};

verus! {

/// The table after get-or-create of `src` once at each instant of `nows`, in
/// order.
pub open spec fn get_or_create_times(t: TableView, src: Seq<char>, nows: Seq<int>) -> TableView
    decreases nows.len(),
{
    if nows.len() == 0 {
        t
    } else {
        get_or_create_times(get_or_create_spec(t, src, nows[0]).0, src, nows.drop_first())
    }
}

/// The table after one visit of the row `id` at each instant of `nows`, in
/// order.
pub open spec fn visit_times(t: TableView, id: int, nows: Seq<int>) -> TableView
    decreases nows.len(),
{
    if nows.len() == 0 {
        t
    } else {
        visit_times(visit_spec(t, id, nows[0]).0, id, nows.drop_first())
    }
}

/// An insertion keeps the table valid.
pub proof fn lemma_create_wf(t: TableView, src: Seq<char>, now: int)
    requires
        table_wf(t),
        i64::MIN <= now <= i64::MAX,
    ensures
        table_wf(create_spec(t, src, now).0),
{
    let t1 = create_spec(t, src, now).0;
    if src.len() > 0 && !has_src(t.rows, src) && t.next_id <= u32::MAX {
        assert forall|i: int, j: int|
            0 <= i < t1.rows.len() && 0 <= j < t1.rows.len() && i != j implies #[trigger] t1.rows[i].id
            != #[trigger] t1.rows[j].id && t1.rows[i].src != t1.rows[j].src by {
            if i < t.rows.len() && j < t.rows.len() {
                assert(t.rows[i].id != t.rows[j].id);
            } else if i < t.rows.len() {
                assert(t.rows[i].src != src);
            } else {
                assert(t.rows[j].src != src);
            }
        }
        assert forall|i: int| 0 <= i < t1.rows.len() implies link_wf(#[trigger] t1.rows[i])
            && t1.rows[i].id < t1.next_id by {
            if i < t.rows.len() {
                assert(link_wf(t.rows[i]));
            }
        }
    }
}

/// A visit keeps the table valid, and the visited row keeps its place.
pub proof fn lemma_visit_wf(t: TableView, id: int, now: int)
    requires
        table_wf(t),
        i64::MIN <= now <= i64::MAX,
    ensures
        table_wf(visit_spec(t, id, now).0),
        has_id(t.rows, id) ==> has_id(visit_spec(t, id, now).0.rows, id) && id_index(
            visit_spec(t, id, now).0.rows,
            id,
        ) == id_index(t.rows, id),
{
    if has_id(t.rows, id) {
        let k = id_index(t.rows, id);
        let t1 = visit_spec(t, id, now).0;
        assert forall|i: int, j: int|
            0 <= i < t1.rows.len() && 0 <= j < t1.rows.len() && i != j implies #[trigger] t1.rows[i].id
            != #[trigger] t1.rows[j].id && t1.rows[i].src != t1.rows[j].src by {
            assert(t.rows[i].id != t.rows[j].id);
        }
        assert forall|i: int| 0 <= i < t1.rows.len() implies link_wf(#[trigger] t1.rows[i])
            && t1.rows[i].id < t1.next_id by {
            assert(link_wf(t.rows[i]));
        }
        assert(t1.rows[k].id == id);
        lemma_same_row(t1, k, id_index(t1.rows, id));
    }
}

/// A full update keeps the table valid.
pub proof fn lemma_update_wf(t: TableView, u: LinkView, now: int)
    requires
        table_wf(t),
        u.num <= u32::MAX,
        i64::MIN <= now <= i64::MAX,
    ensures
        table_wf(update_spec(t, u, now).0),
{
    if has_id(t.rows, u.id) {
        let t1 = update_spec(t, u, now).0;
        assert forall|i: int, j: int|
            0 <= i < t1.rows.len() && 0 <= j < t1.rows.len() && i != j implies #[trigger] t1.rows[i].id
            != #[trigger] t1.rows[j].id && t1.rows[i].src != t1.rows[j].src by {
            assert(t.rows[i].id != t.rows[j].id);
        }
        assert forall|i: int| 0 <= i < t1.rows.len() implies link_wf(#[trigger] t1.rows[i])
            && t1.rows[i].id < t1.next_id by {
            assert(link_wf(t.rows[i]));
        }
    }
}

/// A removal keeps the table valid.
pub proof fn lemma_delete_wf(t: TableView, id: int)
    requires
        table_wf(t),
    ensures
        table_wf(delete_spec(t, id).0),
{
    if has_id(t.rows, id) {
        let k = id_index(t.rows, id);
        let t1 = delete_spec(t, id).0;
        assert forall|a: int, b: int|
            0 <= a < t1.rows.len() && 0 <= b < t1.rows.len() && a != b implies #[trigger] t1.rows[a].id
            != #[trigger] t1.rows[b].id && t1.rows[a].src != t1.rows[b].src by {
            let a0 = if a < k {
                a
            } else {
                a + 1
            };
            let b0 = if b < k {
                b
            } else {
                b + 1
            };
            assert(t.rows[a0].id != t.rows[b0].id);
        }
        assert forall|a: int| 0 <= a < t1.rows.len() implies link_wf(#[trigger] t1.rows[a])
            && t1.rows[a].id < t1.next_id by {
            let a0 = if a < k {
                a
            } else {
                a + 1
            };
            assert(link_wf(t.rows[a0]));
        }
    }
}

/// The table after inserting each source of `srcs` in turn, at time `now`.
pub open spec fn create_times(t: TableView, srcs: Seq<Seq<char>>, now: int) -> TableView
    decreases srcs.len(),
{
    if srcs.len() == 0 {
        t
    } else {
        create_times(create_spec(t, srcs[0], now).0, srcs.drop_first(), now)
    }
}

/// The rows that inserting `srcs` in turn adds, numbered from `first`.
pub open spec fn fresh_rows(first: int, srcs: Seq<Seq<char>>, now: int) -> Seq<LinkView> {
    Seq::new(srcs.len(), |k: int| fresh_row(first + k, srcs[k], now))
}

/// Distinct, non-empty sources that the table does not hold yet.
pub open spec fn new_sources(t: TableView, srcs: Seq<Seq<char>>) -> bool {
    &&& forall|k: int| 0 <= k < srcs.len() ==> (#[trigger] srcs[k]).len() > 0 && !has_src(t.rows, srcs[k])
    &&& forall|a: int, b: int| 0 <= a < srcs.len() && 0 <= b < srcs.len() && a != b ==> #[trigger] srcs[a] != #[trigger] srcs[b]
}

/// Inserting new sources one after another gives them consecutive
/// identifiers, in the order of insertion, from the table's next one.
pub proof fn law_create_in_order(t: TableView, srcs: Seq<Seq<char>>, now: int)
    requires
        table_wf(t),
        i64::MIN <= now <= i64::MAX,
        new_sources(t, srcs),
        t.next_id + srcs.len() <= u32::MAX + 1,
    ensures
        create_times(t, srcs, now) == (TableView {
            rows: t.rows + fresh_rows(t.next_id, srcs, now),
            next_id: t.next_id + srcs.len(),
        }),
        table_wf(create_times(t, srcs, now)),
    decreases srcs.len(),
{
    if srcs.len() == 0 {
        assert(t.rows + fresh_rows(t.next_id, srcs, now) =~= t.rows);
    } else {
        let t1 = create_spec(t, srcs[0], now).0;
        let rest = srcs.drop_first();
        assert(srcs[0].len() > 0 && !has_src(t.rows, srcs[0]));
        lemma_create_wf(t, srcs[0], now);
        assert(t1.rows == t.rows.push(fresh_row(t.next_id, srcs[0], now)));
        assert forall|k: int| 0 <= k < rest.len() implies (#[trigger] rest[k]).len() > 0
            && !has_src(t1.rows, rest[k]) by {
            assert(rest[k] == srcs[k + 1]);
            assert(srcs[k + 1] != srcs[0]);
            assert(!has_src(t.rows, srcs[k + 1]));
            if has_src(t1.rows, rest[k]) {
                let i = choose|i: int| 0 <= i < t1.rows.len() && #[trigger] t1.rows[i].src == rest[k];
                if i < t.rows.len() {
                    assert(t.rows[i].src == srcs[k + 1]);
                }
            }
        }
        assert forall|a: int, b: int| 0 <= a < rest.len() && 0 <= b < rest.len() && a != b implies #[trigger] rest[a]
            != #[trigger] rest[b] by {
            assert(srcs[a + 1] != srcs[b + 1]);
        }
        law_create_in_order(t1, rest, now);
        assert(t1.rows + fresh_rows(t1.next_id, rest, now) =~= t.rows + fresh_rows(
            t.next_id,
            srcs,
            now,
        ));
    }
}

/// From an empty table, the link made by the `n`-th insertion of a new
/// source has the identifier `n`.
pub proof fn law_identifier_is_creation_rank(srcs: Seq<Seq<char>>, src: Seq<char>, now: int)
    requires
        i64::MIN <= now <= i64::MAX,
        new_sources(TableView { rows: Seq::empty(), next_id: 1 }, srcs),
        src.len() > 0,
        forall|k: int| 0 <= k < srcs.len() ==> #[trigger] srcs[k] != src,
        srcs.len() + 1 <= u32::MAX,
    ensures
        create_spec(create_times(TableView { rows: Seq::empty(), next_id: 1 }, srcs, now), src, now).1
            == Ok::<LinkView, LinkError>(fresh_row(srcs.len() as int + 1, src, now)),
{
    let t = TableView { rows: Seq::empty(), next_id: 1 };
    law_create_in_order(t, srcs, now);
    let t2 = create_times(t, srcs, now);
    if has_src(t2.rows, src) {
        let i = choose|i: int| 0 <= i < t2.rows.len() && #[trigger] t2.rows[i].src == src;
        assert(t2.rows[i] == fresh_row(1 + i, srcs[i], now));
    }
}

/// Get-or-create a second time on the same source changes nothing and
/// returns the same row: same identifier, same visit count.
pub proof fn law_get_or_create_twice(t: TableView, src: Seq<char>, now1: int, now2: int)
    requires
        table_wf(t),
        i64::MIN <= now1 <= i64::MAX,
    ensures
        get_or_create_spec(get_or_create_spec(t, src, now1).0, src, now2) == get_or_create_spec(
            t,
            src,
            now1,
        ),
{
    let (t1, r1) = get_or_create_spec(t, src, now1);
    if src.len() > 0 && !has_src(t.rows, src) && t.next_id <= u32::MAX {
        lemma_create_wf(t, src, now1);
        let k = t1.rows.len() - 1;
        assert(t1.rows[k].src == src);
        lemma_same_row(t1, k, src_index(t1.rows, src));
    }
}

/// However many times get-or-create runs on one source, one after another
/// as the table serialises them, the table ends as after the first run.
pub proof fn law_get_or_create_repeated(t: TableView, src: Seq<char>, nows: Seq<int>)
    requires
        table_wf(t),
        nows.len() >= 1,
        forall|i: int| 0 <= i < nows.len() ==> i64::MIN <= #[trigger] nows[i] <= i64::MAX,
    ensures
        get_or_create_times(t, src, nows) == get_or_create_spec(t, src, nows[0]).0,
    decreases nows.len(),
{
    let t1 = get_or_create_spec(t, src, nows[0]).0;
    let rest = nows.drop_first();
    if rest.len() >= 1 {
        law_get_or_create_twice(t, src, nows[0], rest[0]);
        lemma_create_wf(t, src, nows[0]);
        assert(get_or_create_spec(t1, src, rest[0]).0 == t1);
        assert(forall|i: int| 0 <= i < rest.len() ==> rest[i] == nows[i + 1]);
        law_get_or_create_repeated(t1, src, rest);
        assert(get_or_create_times(t1, src, rest) == get_or_create_spec(t1, src, rest[0]).0);
    } else {
        assert(get_or_create_times(t1, src, rest) == t1);
    }
}

/// After a successful get-or-create, exactly one row holds the source.
pub proof fn law_get_or_create_one_row(t: TableView, src: Seq<char>, now: int)
    requires
        table_wf(t),
        i64::MIN <= now <= i64::MAX,
        get_or_create_spec(t, src, now).1 is Ok,
    ensures
        has_src(get_or_create_spec(t, src, now).0.rows, src),
        forall|i: int, j: int|
            0 <= i < get_or_create_spec(t, src, now).0.rows.len() && 0 <= j < get_or_create_spec(
                t,
                src,
                now,
            ).0.rows.len() && #[trigger] get_or_create_spec(t, src, now).0.rows[i].src == src
                && #[trigger] get_or_create_spec(t, src, now).0.rows[j].src == src ==> i == j,
{
    let t1 = get_or_create_spec(t, src, now).0;
    lemma_create_wf(t, src, now);
    if !has_src(t.rows, src) {
        assert(t1.rows[t1.rows.len() - 1].src == src);
    }
    assert forall|i: int, j: int|
        0 <= i < t1.rows.len() && 0 <= j < t1.rows.len() && #[trigger] t1.rows[i].src == src
            && #[trigger] t1.rows[j].src == src implies i == j by {
        lemma_same_row(t1, i, j);
    }
}

/// Visits of one row, one per instant of `nows`, raise its counter by their
/// number: none is lost.
pub proof fn law_visits_counted(t: TableView, id: int, nows: Seq<int>)
    requires
        table_wf(t),
        has_id(t.rows, id),
        t.rows[id_index(t.rows, id)].num + nows.len() <= u32::MAX,
        forall|i: int| 0 <= i < nows.len() ==> i64::MIN <= #[trigger] nows[i] <= i64::MAX,
    ensures
        has_id(visit_times(t, id, nows).rows, id),
        visit_times(t, id, nows).rows[id_index(visit_times(t, id, nows).rows, id)].num == t.rows[id_index(
            t.rows,
            id,
        )].num + nows.len(),
    decreases nows.len(),
{
    if nows.len() > 0 {
        let t1 = visit_spec(t, id, nows[0]).0;
        let rest = nows.drop_first();
        lemma_visit_wf(t, id, nows[0]);
        assert(forall|i: int| 0 <= i < rest.len() ==> rest[i] == nows[i + 1]);
        law_visits_counted(t1, id, rest);
    }
}

/// Deleting a missing identifier fails with `NotFound` and changes nothing;
/// after any delete of an identifier, no row has it.
pub proof fn law_delete_then_absent(t: TableView, id: int)
    requires
        table_wf(t),
    ensures
        !has_id(t.rows, id) ==> delete_spec(t, id) == (t, Err::<LinkView, LinkError>(LinkError::NotFound)),
        !has_id(delete_spec(t, id).0.rows, id),
{
    if has_id(t.rows, id) {
        let k = id_index(t.rows, id);
        let t1 = delete_spec(t, id).0;
        if has_id(t1.rows, id) {
            let a = choose|a: int| 0 <= a < t1.rows.len() && #[trigger] t1.rows[a].id == id;
            let a0 = if a < k {
                a
            } else {
                a + 1
            };
            assert(t.rows[a0].id == id);
            lemma_same_row(t, a0, k);
        }
    }
}

} // verus!
