//! Reading order, rows of equal height, and the merging of rows that lie
//! within a tolerance of each other.
use vstd::prelude::*;
use crate::extract::{ObjView, TextObject, views};

verus! {

broadcast use vstd::seq_lib::to_multiset_insert;

/// `a` is read before `b`: it stands higher on the page, or level with `b`
/// and further left.
pub open spec fn reads_before(a: ObjView, b: ObjView) -> bool {
    a.y > b.y || (a.y == b.y && a.x < b.x)
}

/// No object is read before one that precedes it.
pub open spec fn in_reading_order(s: Seq<ObjView>) -> bool {
    forall|i: int, j: int| 0 <= i < j < s.len() ==> !reads_before(#[trigger] s[j], #[trigger] s[i])
}

/// `o` placed into `s` before the first object that it is read before.
pub open spec fn insert_in_order(s: Seq<ObjView>, o: ObjView) -> Seq<ObjView>
    decreases s.len(),
{
    if s.len() == 0 {
        seq![o]
    } else if reads_before(o, s[0]) {
        seq![o] + s
    } else {
        seq![s[0]] + insert_in_order(s.drop_first(), o)
    }
}

/// The objects sorted top to bottom, then left to right; objects at the same
/// place keep the order they came in.
pub open spec fn reading_order(s: Seq<ObjView>) -> Seq<ObjView>
    decreases s.len(),
{
    if s.len() == 0 {
        s
    } else {
        insert_in_order(reading_order(s.drop_last()), s.last())
    }
}

/// Where `insert_in_order` puts `o`: after every object that `o` is not read
/// before, up to the first that it is.
proof fn lemma_insert_in_order(s: Seq<ObjView>, o: ObjView) -> (k: int)
    ensures
        0 <= k <= s.len(),
        insert_in_order(s, o) == s.insert(k, o),
        forall|j: int| 0 <= j < k ==> !reads_before(o, #[trigger] s[j]),
        k < s.len() ==> reads_before(o, s[k]),
    decreases s.len(),
{
    if s.len() == 0 {
        assert(seq![o] =~= s.insert(0, o));
        0
    } else if reads_before(o, s[0]) {
        assert(seq![o] + s =~= s.insert(0, o));
        0
    } else {
        let k = lemma_insert_in_order(s.drop_first(), o);
        assert(seq![s[0]] + s.drop_first().insert(k, o) =~= s.insert(k + 1, o));
        assert forall|j: int| 0 <= j < k + 1 implies !reads_before(o, #[trigger] s[j]) by {
            if j > 0 {
                assert(s[j] == s.drop_first()[j - 1]);
            }
        }
        if k + 1 < s.len() {
            assert(s[k + 1] == s.drop_first()[k]);
        }
        k + 1
    }
}

proof fn lemma_insert_keeps_order(s: Seq<ObjView>, o: ObjView)
    requires
        in_reading_order(s),
    ensures
        in_reading_order(insert_in_order(s, o)),
        insert_in_order(s, o).to_multiset() == s.to_multiset().insert(o),
{
    let k = lemma_insert_in_order(s, o);
    let t = s.insert(k, o);
    assert forall|i: int, j: int| 0 <= i < j < t.len() implies !reads_before(
        #[trigger] t[j],
        #[trigger] t[i],
    ) by {
        if j < k {
            assert(t[i] == s[i] && t[j] == s[j]);
        } else if j == k {
            assert(t[i] == s[i]);
        } else if i == k {
            assert(t[j] == s[j - 1]);
            assert(reads_before(o, s[k]));
            if j - 1 > k {
                assert(!reads_before(s[j - 1], s[k]));
            }
        } else if i < k {
            assert(t[i] == s[i] && t[j] == s[j - 1]);
        } else {
            assert(t[i] == s[i - 1] && t[j] == s[j - 1]);
        }
    }
}

/// Sorting into reading order leaves every object in place but in order: no
/// object follows one that it is read before, and the same objects remain,
/// each as often as before.
pub proof fn lemma_reading_order(s: Seq<ObjView>)
    ensures
        in_reading_order(reading_order(s)),
        reading_order(s).to_multiset() == s.to_multiset(),
    decreases s.len(),
{
    if s.len() > 0 {
        lemma_reading_order(s.drop_last());
        lemma_insert_keeps_order(reading_order(s.drop_last()), s.last());
        vstd::seq_lib::to_multiset_build(s.drop_last(), s.last());
        assert(s.drop_last().push(s.last()) =~= s);
    }
}

/// No two objects stand at the same place.
pub open spec fn distinct_places(s: Seq<ObjView>) -> bool {
    forall|i: int, j: int|
        0 <= i < j < s.len() ==> (#[trigger] s[i]).x != (#[trigger] s[j]).x || s[i].y != s[j].y
}

proof fn lemma_reading_order_distinct(s: Seq<ObjView>)
    requires
        distinct_places(s),
    ensures
        distinct_places(reading_order(s)),
    decreases s.len(),
{
    if s.len() > 0 {
        let p = s.drop_last();
        let o = s.last();
        lemma_reading_order_distinct(p);
        lemma_reading_order(p);
        let q = reading_order(p);
        let k = lemma_insert_in_order(q, o);
        let r = q.insert(k, o);
        assert forall|m: int| 0 <= m < q.len() implies (#[trigger] q[m]).x != o.x || q[m].y != o.y by {
            vstd::seq_lib::to_multiset_contains(q, q[m]);
            vstd::seq_lib::to_multiset_contains(p, q[m]);
            let n = choose|n: int| 0 <= n < p.len() && p[n] == q[m];
            assert(s[n] == p[n] && s[s.len() - 1] == o);
        }
        assert forall|i: int, j: int| 0 <= i < j < r.len() implies (#[trigger] r[i]).x != (
        #[trigger] r[j]).x || r[i].y != r[j].y by {
            if j < k {
                assert(r[i] == q[i] && r[j] == q[j]);
            } else if j == k {
                assert(r[i] == q[i]);
            } else if i == k {
                assert(r[j] == q[j - 1]);
            } else if i < k {
                assert(r[i] == q[i] && r[j] == q[j - 1]);
            } else {
                assert(r[i] == q[i - 1] && r[j] == q[j - 1]);
            }
        }
    }
}

/// Where no two objects stand at the same place, reading order is strict:
/// each object is either strictly higher than the next, or level with it and
/// strictly to its left.
pub proof fn lemma_reading_order_strict(s: Seq<ObjView>)
    requires
        distinct_places(s),
    ensures
        forall|i: int, j: int|
            0 <= i < j < reading_order(s).len() ==> reads_before(
                #[trigger] reading_order(s)[i],
                #[trigger] reading_order(s)[j],
            ),
{
    lemma_reading_order(s);
    lemma_reading_order_distinct(s);
}

proof fn lemma_insert_at(s: Seq<ObjView>, o: ObjView, k: int)
    requires
        0 <= k <= s.len(),
        forall|j: int| 0 <= j < k ==> !reads_before(o, #[trigger] s[j]),
        k < s.len() ==> reads_before(o, s[k]),
    ensures
        insert_in_order(s, o) == s.insert(k, o),
    decreases s.len(),
{
    if s.len() == 0 {
        assert(seq![o] =~= s.insert(0, o));
    } else if k == 0 {
        assert(seq![o] + s =~= s.insert(0, o));
    } else {
        assert(!reads_before(o, s[0]));
        assert forall|j: int| 0 <= j < k - 1 implies !reads_before(o, #[trigger] s.drop_first()[j]) by {
            assert(s.drop_first()[j] == s[j + 1]);
        }
        lemma_insert_at(s.drop_first(), o, k - 1);
        assert(seq![s[0]] + s.drop_first().insert(k - 1, o) =~= s.insert(k, o));
    }
}

fn read_before(a: &TextObject, b: &TextObject) -> (r: bool)
    ensures
        r == reads_before(a@, b@),
{
    a.y > b.y || (a.y == b.y && a.x < b.x)
}

/// Sorts text objects into reading order, keeping the order of objects that
/// stand at the same place.
pub fn sort_reading_order(objects: Vec<TextObject>) -> (r: Vec<TextObject>)
    ensures
        views(r@) == reading_order(views(objects@)),
{
    let ghost all = views(objects@);
    let n = objects.len();
    let mut rest = objects;
    let mut sorted: Vec<TextObject> = Vec::new();
    let mut i: usize = 0;
    assert(all.take(0) =~= Seq::<ObjView>::empty());
    while rest.len() > 0
        invariant
            i + rest@.len() == all.len(),
            all.len() == n,
            views(rest@) =~= all.skip(i as int),
            views(sorted@) == reading_order(all.take(i as int)),
        decreases rest.len(),
    {
        let ghost before = rest@;
        let o = rest.remove(0);
        proof {
            lemma_views_remove_first(before);
            assert(all.skip(i as int).drop_first() =~= all.skip(i + 1));
        }
        let mut k: usize = 0;
        while k < sorted.len() && !read_before(&o, &sorted[k])
            invariant
                k <= sorted@.len(),
                forall|j: int| 0 <= j < k ==> !reads_before(o@, #[trigger] views(sorted@)[j]),
            decreases sorted.len() - k,
        {
            k = k + 1;
        }
        let ghost placed = views(sorted@);
        proof {
            lemma_insert_at(placed, o@, k as int);
            assert(all.take(i + 1).drop_last() =~= all.take(i as int));
        }
        sorted.insert(k, o);
        assert(views(sorted@) =~= placed.insert(k as int, o@));
        i = i + 1;
    }
    assert(all.take(i as int) =~= all);
    sorted
}

pub open spec fn row_views(rows: Seq<Vec<TextObject>>) -> Seq<Seq<ObjView>> {
    rows.map_values(|r: Vec<TextObject>| views(r@))
}

proof fn lemma_views_remove_first(s: Seq<TextObject>)
    requires
        s.len() > 0,
    ensures
        views(s.remove(0)) == views(s).drop_first(),
        views(s)[0] == s[0]@,
{
    assert(views(s.remove(0)) =~= views(s).drop_first());
}

proof fn lemma_row_views_remove_first(s: Seq<Vec<TextObject>>)
    requires
        s.len() > 0,
    ensures
        row_views(s.remove(0)) == row_views(s).drop_first(),
        row_views(s)[0] == views(s[0]@),
{
    assert(row_views(s.remove(0)) =~= row_views(s).drop_first());
}

/// The objects in reading order, cut into rows: a new row begins wherever an
/// object's height differs from the height of the object before it.
pub open spec fn rows_by_y(s: Seq<ObjView>) -> Seq<Seq<ObjView>>
    decreases s.len(),
{
    if s.len() == 0 {
        Seq::empty()
    } else {
        let rows = rows_by_y(s.drop_last());
        let o = s.last();
        if rows.len() > 0 && rows.last().last().y == o.y {
            rows.drop_last().push(rows.last().push(o))
        } else {
            rows.push(seq![o])
        }
    }
}

/// Cuts objects in reading order into rows of equal height.
pub fn group_rows(sorted: Vec<TextObject>) -> (r: Vec<Vec<TextObject>>)
    ensures
        row_views(r@) == rows_by_y(views(sorted@)),
{
    let ghost all = views(sorted@);
    let n = sorted.len();
    let mut rest = sorted;
    let mut rows: Vec<Vec<TextObject>> = Vec::new();
    let mut current: Vec<TextObject> = Vec::new();
    let mut i: usize = 0;
    assert(all.take(0) =~= Seq::<ObjView>::empty());
    while rest.len() > 0
        invariant
            i + rest@.len() == all.len(),
            all.len() == n,
            views(rest@) =~= all.skip(i as int),
            i == 0 ==> rows@.len() == 0 && current@.len() == 0,
            i > 0 ==> current@.len() > 0 && rows_by_y(all.take(i as int)) == row_views(
                rows@,
            ).push(views(current@)),
        decreases rest.len(),
    {
        let ghost before = rest@;
        let o = rest.remove(0);
        proof {
            lemma_views_remove_first(before);
            assert(all.skip(i as int).drop_first() =~= all.skip(i + 1));
            assert(all.take(i + 1).drop_last() =~= all.take(i as int));
            assert(all.take(i + 1).last() == o@);
        }
        let ghost prior_rows = rows@;
        let ghost prior_current = current@;
        proof {
            if i > 0 {
                let r = rows_by_y(all.take(i as int));
                assert(r.last() == views(prior_current));
                assert(r.last().last() == prior_current.last()@);
            }
        }
        if current.len() > 0 && current[current.len() - 1].y == o.y {
            current.push(o);
            proof {
                let r = rows_by_y(all.take(i as int));
                assert(rows_by_y(all.take(i + 1)) == r.drop_last().push(r.last().push(o@)));
                assert(views(current@) =~= views(prior_current).push(o@));
                assert(row_views(prior_rows).push(views(prior_current)).drop_last() =~= row_views(
                    prior_rows,
                ));
                assert(rows_by_y(all.take(i + 1)) == row_views(rows@).push(views(current@)));
            }
        } else {
            if current.len() > 0 {
                rows.push(current);
                assert(row_views(rows@) =~= row_views(prior_rows).push(views(prior_current)));
            } else {
                assert(row_views(rows@) =~= Seq::<Seq<ObjView>>::empty());
            }
            current = Vec::new();
            current.push(o);
            proof {
                let r = rows_by_y(all.take(i as int));
                assert(rows_by_y(all.take(i + 1)) == r.push(seq![o@]));
                assert(views(current@) =~= seq![o@]);
                assert(rows_by_y(all.take(i + 1)) == row_views(rows@).push(views(current@)));
            }
        }
        i = i + 1;
    }
    assert(all.take(i as int) =~= all);
    if current.len() > 0 {
        let ghost prior_rows = rows@;
        rows.push(current);
        assert(row_views(rows@) =~= row_views(prior_rows).push(views(current@)));
    } else {
        assert(row_views(rows@) =~= Seq::<Seq<ObjView>>::empty());
    }
    rows
}

/// Sorts a page's text objects into reading order and cuts them into rows
/// of equal height.
pub fn sort_text_objects_to_lines(objects: Vec<TextObject>) -> (r: Vec<Vec<TextObject>>)
    ensures
        row_views(r@) == rows_by_y(reading_order(views(objects@))),
{
    group_rows(sort_reading_order(objects))
}

/// Every row holds at least one object.
pub open spec fn rows_filled(rows: Seq<Seq<ObjView>>) -> bool {
    forall|k: int| 0 <= k < rows.len() ==> (#[trigger] rows[k]).len() > 0
}

/// Rows of equal height are never empty.
pub proof fn lemma_rows_by_y_filled(s: Seq<ObjView>)
    ensures
        rows_filled(rows_by_y(s)),
    decreases s.len(),
{
    if s.len() > 0 {
        lemma_rows_by_y_filled(s.drop_last());
        let rows = rows_by_y(s.drop_last());
        if rows.len() > 0 && rows.last().last().y == s.last().y {
            let m = rows.drop_last().push(rows.last().push(s.last()));
            assert forall|k: int| 0 <= k < m.len() implies (#[trigger] m[k]).len() > 0 by {
                if k < m.len() - 1 {
                    assert(m[k] == rows[k]);
                }
            }
        } else {
            let m = rows.push(seq![s.last()]);
            assert forall|k: int| 0 <= k < m.len() implies (#[trigger] m[k]).len() > 0 by {
                if k < m.len() - 1 {
                    assert(m[k] == rows[k]);
                }
            }
        }
    }
}

/// The height of a row: that of its first object.
pub open spec fn row_y(row: Seq<ObjView>) -> int {
    row[0].y as int
}

/// Rows merged under a tolerance: a row joins the merged row before it when
/// that merged row's first object stands less than `tolerance` above the
/// row's first object; otherwise it starts a merged row of its own.
pub open spec fn merge_rows(rows: Seq<Seq<ObjView>>, tolerance: int) -> Seq<Seq<ObjView>>
    decreases rows.len(),
{
    if rows.len() == 0 {
        Seq::empty()
    } else {
        let merged = merge_rows(rows.drop_last(), tolerance);
        let r = rows.last();
        if merged.len() > 0 && row_y(merged.last()) - row_y(r) < tolerance {
            merged.drop_last().push(merged.last() + r)
        } else {
            merged.push(r)
        }
    }
}

/// Each row stands at least `tolerance` below the one before it.
pub open spec fn rows_separated(rows: Seq<Seq<ObjView>>, tolerance: int) -> bool {
    forall|k: int|
        0 <= k && k + 1 < rows.len() ==> #[trigger] row_y(rows[k]) - row_y(rows[k + 1]) >= tolerance
}

/// Merged rows are never empty, and each stands at least `tolerance` below
/// the one before it.
pub proof fn lemma_merge_rows_separated(rows: Seq<Seq<ObjView>>, tolerance: int)
    requires
        rows_filled(rows),
    ensures
        rows_filled(merge_rows(rows, tolerance)),
        rows_separated(merge_rows(rows, tolerance), tolerance),
    decreases rows.len(),
{
    if rows.len() > 0 {
        let p = rows.drop_last();
        assert(rows_filled(p)) by {
            assert forall|k: int| 0 <= k < p.len() implies (#[trigger] p[k]).len() > 0 by {
                assert(p[k] == rows[k]);
            }
        }
        lemma_merge_rows_separated(p, tolerance);
        let merged = merge_rows(p, tolerance);
        let r = rows.last();
        assert(r.len() > 0);
        let m = merge_rows(rows, tolerance);
        if merged.len() > 0 && row_y(merged.last()) - row_y(r) < tolerance {
            assert(m == merged.drop_last().push(merged.last() + r));
            assert(row_y(merged.last() + r) == row_y(merged.last()));
            assert forall|k: int| 0 <= k < m.len() implies (#[trigger] m[k]).len() > 0 by {
                if k < m.len() - 1 {
                    assert(m[k] == merged[k]);
                }
            }
            assert forall|k: int| 0 <= k && k + 1 < m.len() implies #[trigger] row_y(m[k]) - row_y(
                m[k + 1],
            ) >= tolerance by {
                assert(m[k] == merged[k]);
                if k + 1 < m.len() - 1 {
                    assert(m[k + 1] == merged[k + 1]);
                } else {
                    assert(row_y(m[k + 1]) == row_y(merged[k + 1]));
                }
            }
        } else {
            assert(m == merged.push(r));
            assert forall|k: int| 0 <= k < m.len() implies (#[trigger] m[k]).len() > 0 by {
                if k < m.len() - 1 {
                    assert(m[k] == merged[k]);
                }
            }
            assert forall|k: int| 0 <= k && k + 1 < m.len() implies #[trigger] row_y(m[k]) - row_y(
                m[k + 1],
            ) >= tolerance by {
                assert(m[k] == merged[k]);
                if k + 1 < m.len() - 1 {
                    assert(m[k + 1] == merged[k + 1]);
                }
            }
        }
    }
}

proof fn lemma_merge_rows_keeps_separated(rows: Seq<Seq<ObjView>>, tolerance: int)
    requires
        rows_separated(rows, tolerance),
    ensures
        merge_rows(rows, tolerance) == rows,
    decreases rows.len(),
{
    if rows.len() > 0 {
        let p = rows.drop_last();
        assert(rows_separated(p, tolerance)) by {
            assert forall|k: int| 0 <= k && k + 1 < p.len() implies #[trigger] row_y(p[k]) - row_y(
                p[k + 1],
            ) >= tolerance by {
                assert(p[k] == rows[k] && p[k + 1] == rows[k + 1]);
            }
        }
        lemma_merge_rows_keeps_separated(p, tolerance);
        if p.len() > 0 {
            assert(row_y(rows[p.len() - 1]) - row_y(rows[p.len() as int]) >= tolerance);
        }
        assert(p.push(rows.last()) =~= rows);
    }
}

/// Merging is idempotent: merging rows that were already merged under the
/// same tolerance changes nothing.
pub proof fn lemma_merge_idempotent(rows: Seq<Seq<ObjView>>, tolerance: int)
    requires
        rows_filled(rows),
    ensures
        merge_rows(merge_rows(rows, tolerance), tolerance) == merge_rows(rows, tolerance),
{
    lemma_merge_rows_separated(rows, tolerance);
    lemma_merge_rows_keeps_separated(merge_rows(rows, tolerance), tolerance);
}

/// Merges rows whose heights lie within `tolerance` of the row that opened
/// the current merged row; the last merged row is flushed at the end.
pub fn merge_lines(lines: Vec<Vec<TextObject>>, tolerance: i64) -> (r: Vec<Vec<TextObject>>)
    requires
        rows_filled(row_views(lines@)),
    ensures
        row_views(r@) == merge_rows(row_views(lines@), tolerance as int),
{
    let ghost all = row_views(lines@);
    let n = lines.len();
    let mut rest = lines;
    let mut merged: Vec<Vec<TextObject>> = Vec::new();
    let mut current: Vec<TextObject> = Vec::new();
    let mut anchor: i64 = 0;
    let mut i: usize = 0;
    assert(all.take(0) =~= Seq::<Seq<ObjView>>::empty());
    while rest.len() > 0
        invariant
            i + rest@.len() == all.len(),
            all.len() == n,
            rows_filled(all),
            row_views(rest@) =~= all.skip(i as int),
            i == 0 ==> merged@.len() == 0 && current@.len() == 0,
            i > 0 ==> current@.len() > 0 && anchor == current@[0].y && merge_rows(
                all.take(i as int),
                tolerance as int,
            ) == row_views(merged@).push(views(current@)),
        decreases rest.len(),
    {
        let ghost before = rest@;
        let mut row = rest.remove(0);
        proof {
            lemma_row_views_remove_first(before);
            assert(all.skip(i as int).drop_first() =~= all.skip(i + 1));
            assert(all.take(i + 1).drop_last() =~= all.take(i as int));
            assert(all.take(i + 1).last() == views(row@));
            assert(all[i as int].len() > 0);
        }
        let ghost prior_merged = merged@;
        let ghost prior_current = current@;
        let ghost this_row = row@;
        let y = row[0].y;
        proof {
            assert(views(this_row)[0] == this_row[0]@);
            if i > 0 {
                let m = merge_rows(all.take(i as int), tolerance as int);
                assert(m.last() == views(prior_current));
                assert(views(prior_current)[0] == prior_current[0]@);
            }
        }
        if current.len() > 0 && (anchor as i128) - (y as i128) < tolerance as i128 {
            current.append(&mut row);
            proof {
                let m = merge_rows(all.take(i as int), tolerance as int);
                assert(merge_rows(all.take(i + 1), tolerance as int) == m.drop_last().push(
                    m.last() + views(this_row),
                ));
                assert(views(current@) =~= views(prior_current) + views(this_row));
                assert(row_views(prior_merged).push(views(prior_current)).drop_last()
                    =~= row_views(prior_merged));
                assert(merge_rows(all.take(i + 1), tolerance as int) == row_views(merged@).push(
                    views(current@),
                ));
            }
        } else {
            if current.len() > 0 {
                merged.push(current);
                assert(row_views(merged@) =~= row_views(prior_merged).push(views(prior_current)));
            } else {
                assert(row_views(merged@) =~= Seq::<Seq<ObjView>>::empty());
            }
            anchor = y;
            current = row;
            proof {
                let m = merge_rows(all.take(i as int), tolerance as int);
                assert(merge_rows(all.take(i + 1), tolerance as int) == m.push(views(this_row)));
                assert(merge_rows(all.take(i + 1), tolerance as int) == row_views(merged@).push(
                    views(current@),
                ));
            }
        }
        i = i + 1;
    }
    assert(all.take(i as int) =~= all);
    if current.len() > 0 {
        let ghost prior_merged = merged@;
        merged.push(current);
        assert(row_views(merged@) =~= row_views(prior_merged).push(views(current@)));
    } else {
        assert(row_views(merged@) =~= Seq::<Seq<ObjView>>::empty());
    }
    merged
}

} // verus!
