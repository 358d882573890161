use vstd::prelude::*;
use vstd::seq_lib::*;

use crate::manufacturer::{Manufacturer, ManufacturerView};
use crate::model::{Model, ModelView};
use crate::table::{
    extract_row, lemma_row_model_links_absolute, model_links_absolute, row_fatal, row_view,
    spec_brand_name, spec_row_model, Cell, CellView, ExtractError,
};

verus! {

/// The mathematical value of a whole run of table rows.
pub open spec fn rows_view(rows: Seq<Vec<Cell>>) -> Seq<Seq<CellView>> {
    rows.map_values(|r: Vec<Cell>| row_view(r@))
}

/// The data rows of a run: everything after the two header and filter
/// rows.
pub open spec fn spec_data_rows(rows: Seq<Seq<CellView>>) -> Seq<Seq<CellView>> {
    if rows.len() <= 2 {
        Seq::empty()
    } else {
        rows.skip(2)
    }
}

/// The stream the aggregator consumes: per data row, the brand name
/// and the model, in document order.
pub open spec fn spec_row_pairs(rows: Seq<Seq<CellView>>) -> Seq<(Seq<char>, ModelView)> {
    spec_data_rows(rows).map_values(|row: Seq<CellView>| (spec_brand_name(row), spec_row_model(row)))
}

/// Whether any data row of the run breaks the anchor contract.
pub open spec fn some_row_fatal(rows: Seq<Seq<CellView>>) -> bool {
    exists|i: int| 2 <= i < rows.len() && row_fatal(rows[i])
}

/// The distinct brand names of the stream, in first-seen order.
pub open spec fn spec_brand_order(pairs: Seq<(Seq<char>, ModelView)>) -> Seq<Seq<char>>
    decreases pairs.len(),
{
    if pairs.len() == 0 {
        Seq::empty()
    } else {
        let prev = spec_brand_order(pairs.drop_last());
        if prev.contains(pairs.last().0) {
            prev
        } else {
            prev.push(pairs.last().0)
        }
    }
}

/// The models attributed to brand `name`, in document order.
pub open spec fn spec_models_for(
    pairs: Seq<(Seq<char>, ModelView)>,
    name: Seq<char>,
) -> Seq<ModelView>
    decreases pairs.len(),
{
    if pairs.len() == 0 {
        Seq::empty()
    } else {
        let prev = spec_models_for(pairs.drop_last(), name);
        if pairs.last().0 == name {
            prev.push(pairs.last().1)
        } else {
            prev
        }
    }
}

/// The catalog the aggregator builds: one brand per distinct name, in
/// first-seen order, each with its models in document order.
pub open spec fn spec_catalog(pairs: Seq<(Seq<char>, ModelView)>) -> Seq<ManufacturerView> {
    spec_brand_order(pairs).map_values(
        |n: Seq<char>| ManufacturerView { name: n, models: spec_models_for(pairs, n) },
    )
}

/// Whether some pair of the stream carries brand `b`.
pub open spec fn spec_has_brand(pairs: Seq<(Seq<char>, ModelView)>, b: Seq<char>) -> bool {
    exists|i: int| 0 <= i < pairs.len() && (#[trigger] pairs[i]).0 == b
}

proof fn lemma_brand_order_push(pairs: Seq<(Seq<char>, ModelView)>, p: (Seq<char>, ModelView))
    ensures
        spec_brand_order(pairs.push(p)) == (if spec_brand_order(pairs).contains(p.0) {
            spec_brand_order(pairs)
        } else {
            spec_brand_order(pairs).push(p.0)
        }),
{
    assert((pairs.push(p)).drop_last() =~= pairs);
    assert((pairs.push(p)).last() == p);
}

proof fn lemma_models_for_push(
    pairs: Seq<(Seq<char>, ModelView)>,
    p: (Seq<char>, ModelView),
    b: Seq<char>,
)
    ensures
        spec_models_for(pairs.push(p), b) == (if p.0 == b {
            spec_models_for(pairs, b).push(p.1)
        } else {
            spec_models_for(pairs, b)
        }),
{
    assert((pairs.push(p)).drop_last() =~= pairs);
    assert((pairs.push(p)).last() == p);
}

/// A brand name stands in the first-seen order exactly when some pair
/// carries it.
proof fn lemma_brand_order_contains(pairs: Seq<(Seq<char>, ModelView)>, b: Seq<char>)
    ensures
        spec_brand_order(pairs).contains(b) <==> spec_has_brand(pairs, b),
    decreases pairs.len(),
{
    if pairs.len() == 0 {
        assert(!spec_brand_order(pairs).contains(b));
        assert(!spec_has_brand(pairs, b));
    } else {
        let q = pairs.drop_last();
        let x = pairs.last().0;
        let prev = spec_brand_order(q);
        lemma_brand_order_contains(q, b);
        if spec_has_brand(pairs, b) {
            let i = choose|i: int| 0 <= i < pairs.len() && (#[trigger] pairs[i]).0 == b;
            if i < pairs.len() - 1 {
                assert(q[i] == pairs[i]);
                assert(spec_has_brand(q, b));
                assert(prev.contains(b));
                if !prev.contains(x) {
                    let k = choose|k: int| 0 <= k < prev.len() && prev[k] == b;
                    assert(prev.push(x)[k] == b);
                    assert(prev.push(x).contains(b));
                }
            } else {
                assert(pairs[pairs.len() - 1] == pairs.last());
                assert(b == x);
                if !prev.contains(x) {
                    assert(prev.push(x)[prev.len() as int] == x);
                    assert(prev.push(x).contains(x));
                }
            }
            assert(spec_brand_order(pairs).contains(b));
        }
        if spec_brand_order(pairs).contains(b) {
            if prev.contains(x) {
                assert(prev.contains(b));
                assert(spec_has_brand(q, b));
                let i = choose|i: int| 0 <= i < q.len() && (#[trigger] q[i]).0 == b;
                assert(pairs[i] == q[i]);
                assert(spec_has_brand(pairs, b));
            } else {
                let k = choose|k: int|
                    0 <= k < prev.push(x).len() && prev.push(x)[k] == b;
                if k < prev.len() {
                    assert(prev[k] == b);
                    assert(prev.contains(b));
                    assert(spec_has_brand(q, b));
                    let i = choose|i: int| 0 <= i < q.len() && (#[trigger] q[i]).0 == b;
                    assert(pairs[i] == q[i]);
                    assert(spec_has_brand(pairs, b));
                } else {
                    assert(b == x);
                    assert((pairs[pairs.len() - 1]).0 == b);
                    assert(spec_has_brand(pairs, b));
                }
            }
        }
    }
}

/// The first-seen order never lists a brand name twice.
proof fn lemma_brand_order_no_dup(pairs: Seq<(Seq<char>, ModelView)>)
    ensures
        spec_brand_order(pairs).no_duplicates(),
    decreases pairs.len(),
{
    if pairs.len() > 0 {
        let q = pairs.drop_last();
        lemma_brand_order_no_dup(q);
        let prev = spec_brand_order(q);
        if !prev.contains(pairs.last().0) {
            assert forall|i: int, j: int|
                0 <= i < j < prev.push(pairs.last().0).len() implies prev.push(
                pairs.last().0,
            )[i] != prev.push(pairs.last().0)[j] by {
                if j < prev.len() {
                } else {
                    assert(prev[i] != pairs.last().0);
                }
            }
        }
    }
}

/// A brand absent from the stream has no models.
proof fn lemma_models_for_absent(pairs: Seq<(Seq<char>, ModelView)>, b: Seq<char>)
    requires
        !spec_has_brand(pairs, b),
    ensures
        spec_models_for(pairs, b).len() == 0,
    decreases pairs.len(),
{
    if pairs.len() > 0 {
        let q = pairs.drop_last();
        assert(!spec_has_brand(q, b)) by {
            if spec_has_brand(q, b) {
                let i = choose|i: int| 0 <= i < q.len() && (#[trigger] q[i]).0 == b;
                assert(pairs[i] == q[i]);
                assert(spec_has_brand(pairs, b));
            }
        }
        lemma_models_for_absent(q, b);
        assert((pairs[pairs.len() - 1]).0 != b);
        assert(pairs.last().0 != b);
    }
}

/// The stream is empty exactly when the first-seen order is.
proof fn lemma_brand_order_empty(pairs: Seq<(Seq<char>, ModelView)>)
    ensures
        (spec_brand_order(pairs).len() == 0) <==> (pairs.len() == 0),
{
    if pairs.len() > 0 {
        let prev = spec_brand_order(pairs.drop_last());
        if prev.contains(pairs.last().0) {
            assert(prev.len() > 0);
        }
    }
}

/// The total number of models across a catalog's brands.
pub open spec fn spec_model_total(cat: Seq<ManufacturerView>) -> nat
    decreases cat.len(),
{
    if cat.len() == 0 {
        0
    } else {
        spec_model_total(cat.drop_last()) + cat.last().models.len()
    }
}

spec fn spec_total_for(ord: Seq<Seq<char>>, pairs: Seq<(Seq<char>, ModelView)>) -> nat
    decreases ord.len(),
{
    if ord.len() == 0 {
        0
    } else {
        spec_total_for(ord.drop_last(), pairs) + spec_models_for(pairs, ord.last()).len()
    }
}

proof fn lemma_catalog_total_take(pairs: Seq<(Seq<char>, ModelView)>, m: int)
    requires
        0 <= m <= spec_brand_order(pairs).len(),
    ensures
        spec_model_total(spec_catalog(pairs).take(m)) == spec_total_for(
            spec_brand_order(pairs).take(m),
            pairs,
        ),
    decreases m,
{
    let ord = spec_brand_order(pairs);
    let cat = spec_catalog(pairs);
    if m == 0 {
        assert(cat.take(0) =~= Seq::<ManufacturerView>::empty());
        assert(ord.take(0) =~= Seq::<Seq<char>>::empty());
    } else {
        lemma_catalog_total_take(pairs, m - 1);
        assert(cat.take(m).drop_last() =~= cat.take(m - 1));
        assert(ord.take(m).drop_last() =~= ord.take(m - 1));
        assert(cat.take(m).last() == cat[m - 1]);
        assert(ord.take(m).last() == ord[m - 1]);
        assert(cat[m - 1] == (ManufacturerView {
            name: ord[m - 1],
            models: spec_models_for(pairs, ord[m - 1]),
        }));
    }
}

proof fn lemma_total_for_push(
    ord: Seq<Seq<char>>,
    pairs: Seq<(Seq<char>, ModelView)>,
    p: (Seq<char>, ModelView),
)
    requires
        ord.no_duplicates(),
    ensures
        spec_total_for(ord, pairs.push(p)) == spec_total_for(ord, pairs) + (if ord.contains(p.0) {
            1nat
        } else {
            0nat
        }),
    decreases ord.len(),
{
    if ord.len() == 0 {
        assert(!ord.contains(p.0));
    } else {
        let od = ord.drop_last();
        let x = ord.last();
        assert(forall|k: int| 0 <= k < od.len() ==> od[k] == ord[k]);
        assert(od.no_duplicates());
        lemma_total_for_push(od, pairs, p);
        lemma_models_for_push(pairs, p, x);
        if x == p.0 {
            assert(!od.contains(p.0)) by {
                if od.contains(p.0) {
                    let k = choose|k: int| 0 <= k < od.len() && od[k] == p.0;
                    assert(ord[k] == ord[ord.len() - 1]);
                }
            }
            assert(ord.contains(p.0)) by {
                assert(ord[ord.len() - 1] == p.0);
            }
        } else {
            assert(ord.contains(p.0) <==> od.contains(p.0)) by {
                if ord.contains(p.0) {
                    let k = choose|k: int| 0 <= k < ord.len() && ord[k] == p.0;
                    assert(k < od.len());
                    assert(od[k] == p.0);
                }
                if od.contains(p.0) {
                    let k = choose|k: int| 0 <= k < od.len() && od[k] == p.0;
                    assert(ord[k] == p.0);
                }
            }
        }
    }
}

proof fn lemma_total_for_order(pairs: Seq<(Seq<char>, ModelView)>)
    ensures
        spec_total_for(spec_brand_order(pairs), pairs) == pairs.len(),
    decreases pairs.len(),
{
    if pairs.len() > 0 {
        let q = pairs.drop_last();
        let p = pairs.last();
        lemma_total_for_order(q);
        lemma_brand_order_no_dup(q);
        let ordq = spec_brand_order(q);
        assert(pairs =~= q.push(p));
        lemma_total_for_push(ordq, q, p);
        if ordq.contains(p.0) {
            assert(spec_brand_order(pairs) == ordq);
            assert(spec_total_for(ordq, pairs) == spec_total_for(ordq, q.push(p)));
        } else {
            assert(spec_brand_order(pairs) == ordq.push(p.0));
            lemma_brand_order_contains(q, p.0);
            lemma_models_for_absent(q, p.0);
            lemma_models_for_push(q, p, p.0);
            assert(spec_models_for(pairs, p.0).len() == 1);
            assert((ordq.push(p.0)).drop_last() =~= ordq);
            assert((ordq.push(p.0)).last() == p.0);
            assert(spec_total_for(ordq.push(p.0), pairs) == spec_total_for(ordq, pairs)
                + spec_models_for(pairs, p.0).len());
            assert(spec_total_for(ordq, pairs) == spec_total_for(ordq, q.push(p)));
        }
    }
}

/// Law (completeness): the catalog lists each brand name of the
/// stream exactly once, no other name, and the per-brand model counts
/// sum to the number of data rows.
pub proof fn lemma_catalog_completeness(pairs: Seq<(Seq<char>, ModelView)>)
    ensures
        spec_brand_order(pairs).no_duplicates(),
        forall|b: Seq<char>|
            #[trigger] spec_brand_order(pairs).contains(b) <==> spec_has_brand(pairs, b),
        spec_model_total(spec_catalog(pairs)) == pairs.len(),
{
    lemma_brand_order_no_dup(pairs);
    assert forall|b: Seq<char>|
        #[trigger] spec_brand_order(pairs).contains(b) <==> spec_has_brand(pairs, b) by {
        lemma_brand_order_contains(pairs, b);
    }
    let ord = spec_brand_order(pairs);
    lemma_catalog_total_take(pairs, ord.len() as int);
    assert(spec_catalog(pairs).take(ord.len() as int) =~= spec_catalog(pairs));
    assert(ord.take(ord.len() as int) =~= ord);
    lemma_total_for_order(pairs);
}

/// How many of the first `i` pairs of the stream carry brand `b`: the
/// position their models take inside that brand's model sequence.
pub open spec fn spec_brand_rank(pairs: Seq<(Seq<char>, ModelView)>, b: Seq<char>, i: int) -> int
    decreases i,
{
    if i <= 0 {
        0
    } else {
        spec_brand_rank(pairs, b, i - 1) + (if pairs[i - 1].0 == b {
            1int
        } else {
            0int
        })
    }
}

proof fn lemma_rank_agrees(
    left: Seq<(Seq<char>, ModelView)>,
    right: Seq<(Seq<char>, ModelView)>,
    b: Seq<char>,
    i: int,
)
    requires
        0 <= i <= left.len(),
        i <= right.len(),
        forall|k: int| 0 <= k < i ==> left[k] == right[k],
    ensures
        spec_brand_rank(left, b, i) == spec_brand_rank(right, b, i),
    decreases i,
{
    if i > 0 {
        lemma_rank_agrees(left, right, b, i - 1);
    }
}

proof fn lemma_rank_models_len(pairs: Seq<(Seq<char>, ModelView)>, b: Seq<char>, m: int)
    requires
        0 <= m <= pairs.len(),
    ensures
        spec_brand_rank(pairs, b, m) == spec_models_for(pairs.take(m), b).len(),
    decreases m,
{
    if m == 0 {
        assert(pairs.take(0) =~= Seq::<(Seq<char>, ModelView)>::empty());
    } else {
        lemma_rank_models_len(pairs, b, m - 1);
        assert(pairs.take(m).drop_last() =~= pairs.take(m - 1));
        assert(pairs.take(m).last() == pairs[m - 1]);
    }
}

proof fn lemma_rank_index(pairs: Seq<(Seq<char>, ModelView)>, b: Seq<char>, i: int)
    requires
        0 <= i < pairs.len(),
        pairs[i].0 == b,
    ensures
        ({
            let ms = spec_models_for(pairs, b);
            let r = spec_brand_rank(pairs, b, i);
            0 <= r < ms.len() && ms[r] == pairs[i].1
        }),
    decreases pairs.len(),
{
    let q = pairs.drop_last();
    if i == pairs.len() - 1 {
        assert(pairs.last() == pairs[i]);
        lemma_rank_models_len(pairs, b, i);
        assert(pairs.take(i) =~= q);
        assert(spec_models_for(pairs, b) == spec_models_for(q, b).push(pairs[i].1));
    } else {
        assert(q[i] == pairs[i]);
        lemma_rank_index(q, b, i);
        assert(forall|k: int| 0 <= k < i + 1 ==> q[k] == pairs[k]);
        lemma_rank_agrees(q, pairs, b, i + 1);
        assert(spec_brand_rank(pairs, b, i) == spec_brand_rank(q, b, i));
        let msq = spec_models_for(q, b);
        let r = spec_brand_rank(q, b, i);
        if pairs.last().0 == b {
            assert(spec_models_for(pairs, b) == msq.push(pairs.last().1));
            assert(spec_models_for(pairs, b)[r] == msq[r]);
        } else {
            assert(spec_models_for(pairs, b) == msq);
        }
    }
}

proof fn lemma_rank_mono(pairs: Seq<(Seq<char>, ModelView)>, b: Seq<char>, i: int, j: int)
    requires
        0 <= i <= j <= pairs.len(),
    ensures
        spec_brand_rank(pairs, b, i) <= spec_brand_rank(pairs, b, j),
    decreases j - i,
{
    if i < j {
        lemma_rank_mono(pairs, b, i, j - 1);
    }
}

/// Law (order preservation): when two data rows `i < j` carry the same
/// brand, the model of row `i` stands before the model of row `j` in
/// that brand's model sequence, at the positions their ranks give.
pub proof fn lemma_model_order_preserved(pairs: Seq<(Seq<char>, ModelView)>, i: int, j: int)
    requires
        0 <= i < j < pairs.len(),
        pairs[i].0 == pairs[j].0,
    ensures
        ({
            let b = pairs[i].0;
            let models = spec_models_for(pairs, b);
            let ri = spec_brand_rank(pairs, b, i);
            let rj = spec_brand_rank(pairs, b, j);
            0 <= ri < rj < models.len() && models[ri] == pairs[i].1 && models[rj] == pairs[j].1
        }),
{
    let b = pairs[i].0;
    lemma_rank_index(pairs, b, i);
    lemma_rank_index(pairs, b, j);
    lemma_rank_mono(pairs, b, i + 1, j);
    assert(spec_brand_rank(pairs, b, i + 1) == spec_brand_rank(pairs, b, i) + 1);
}

proof fn lemma_counts_brand_only(left: Seq<(Seq<char>, ModelView)>, right: Seq<(Seq<char>, ModelView)>)
    requires
        left.len() == right.len(),
        forall|k: int| 0 <= k < left.len() ==> (#[trigger] left[k]).0 == right[k].0,
    ensures
        spec_brand_order(left) == spec_brand_order(right),
        forall|b: Seq<char>|
            (#[trigger] spec_models_for(left, b)).len() == spec_models_for(right, b).len(),
    decreases left.len(),
{
    if left.len() == 0 {
        assert forall|b: Seq<char>|
            (#[trigger] spec_models_for(left, b)).len() == spec_models_for(right, b).len() by {}
    } else {
        let left_front = left.drop_last();
        let right_front = right.drop_last();
        assert(forall|k: int| 0 <= k < left_front.len() ==> left_front[k] == left[k] && right_front[k] == right[k]);
        lemma_counts_brand_only(left_front, right_front);
        assert(left.last() == left[left.len() - 1]);
        assert(right.last() == right[right.len() - 1]);
        assert(left.last().0 == right.last().0);
        assert forall|b: Seq<char>|
            (#[trigger] spec_models_for(left, b)).len() == spec_models_for(right, b).len() by {
            assert(spec_models_for(left_front, b).len() == spec_models_for(right_front, b).len());
        }
    }
}

/// Law (graceful degradation): blanking the hardware-versions cell of
/// one data row empties that row's revision list and leaves every
/// other field of its model, the brand list and every brand's model
/// count exactly as they were.
pub proof fn lemma_graceful_degradation(rows: Seq<Seq<CellView>>, i: int)
    requires
        2 <= i < rows.len(),
        4 <= rows[i].len(),
    ensures
        ({
            let blanked = rows[i].update(
                3,
                CellView { text: None, anchor: rows[i][3].anchor },
            );
            let rows2 = rows.update(i, blanked);
            &&& spec_row_model(blanked).versions == Seq::<Seq<char>>::empty()
            &&& spec_row_model(blanked).name == spec_row_model(rows[i]).name
            &&& spec_row_model(blanked).openwrt_version == spec_row_model(rows[i]).openwrt_version
            &&& spec_row_model(blanked).device_page == spec_row_model(rows[i]).device_page
            &&& spec_brand_name(blanked) == spec_brand_name(rows[i])
            &&& row_fatal(blanked) == row_fatal(rows[i])
            &&& some_row_fatal(rows2) == some_row_fatal(rows)
            &&& spec_brand_order(spec_row_pairs(rows2)) == spec_brand_order(spec_row_pairs(rows))
            &&& forall|b: Seq<char>|
                (#[trigger] spec_models_for(spec_row_pairs(rows2), b)).len() == spec_models_for(
                    spec_row_pairs(rows),
                    b,
                ).len()
        }),
{
    let blanked = rows[i].update(3, CellView { text: None, anchor: rows[i][3].anchor });
    let rows2 = rows.update(i, blanked);
    let left = spec_row_pairs(rows);
    let right = spec_row_pairs(rows2);
    assert(some_row_fatal(rows2) == some_row_fatal(rows)) by {
        if some_row_fatal(rows) {
            let k = choose|k: int| 2 <= k < rows.len() && row_fatal(rows[k]);
            assert(row_fatal(rows2[k]));
        }
        if some_row_fatal(rows2) {
            let k = choose|k: int| 2 <= k < rows2.len() && row_fatal(rows2[k]);
            assert(row_fatal(rows[k]));
        }
    }
    assert(left.len() == right.len());
    assert forall|k: int| 0 <= k < left.len() implies (#[trigger] left[k]).0 == right[k].0 by {
        assert(spec_data_rows(rows)[k] == rows[k + 2]);
        assert(spec_data_rows(rows2)[k] == rows2[k + 2]);
        if k + 2 != i {
            assert(rows2[k + 2] == rows[k + 2]);
        } else {
            assert(spec_brand_name(blanked) == spec_brand_name(rows[i]));
        }
    }
    lemma_counts_brand_only(right, left);
    assert forall|b: Seq<char>|
        (#[trigger] spec_models_for(right, b)).len() == spec_models_for(left, b).len() by {}
}

/// What extracting the run `rv` must produce: the catalog when some
/// data is there, the no-data result when none is, and the one fatal
/// error exactly when some data row holds an anchor without a target.
pub open spec fn is_extraction_outcome(
    rv: Seq<Seq<CellView>>,
    r: Result<Option<Vec<Manufacturer>>, ExtractError>,
) -> bool {
    let pairs = spec_row_pairs(rv);
    match r {
        Ok(Some(brands)) => !some_row_fatal(rv) && pairs.len() > 0 && brands@.map_values(
            |m: Manufacturer| m@,
        ) == spec_catalog(pairs),
        Ok(None) => !some_row_fatal(rv) && pairs.len() == 0,
        Err(e) => some_row_fatal(rv) && e == ExtractError::MissingAnchorTarget,
    }
}

/// Whether every link of every model of every brand of a catalog is
/// empty or begins with the root URL.
pub open spec fn catalog_links_absolute(cat: Seq<ManufacturerView>) -> bool {
    forall|i: int, j: int|
        0 <= i < cat.len() && 0 <= j < cat[i].models.len() ==> model_links_absolute(
            #[trigger] cat[i].models[j],
        )
}

proof fn lemma_models_for_links(pairs: Seq<(Seq<char>, ModelView)>, b: Seq<char>)
    requires
        forall|i: int| 0 <= i < pairs.len() ==> model_links_absolute((#[trigger] pairs[i]).1),
    ensures
        forall|k: int|
            0 <= k < spec_models_for(pairs, b).len() ==> model_links_absolute(
                #[trigger] spec_models_for(pairs, b)[k],
            ),
    decreases pairs.len(),
{
    if pairs.len() > 0 {
        let q = pairs.drop_last();
        assert(forall|i: int| 0 <= i < q.len() ==> q[i] == pairs[i]);
        lemma_models_for_links(q, b);
        assert(pairs.last() == pairs[pairs.len() - 1]);
        assert(model_links_absolute(pairs.last().1));
        let prev = spec_models_for(q, b);
        assert forall|k: int|
            0 <= k < spec_models_for(pairs, b).len() implies model_links_absolute(
            #[trigger] spec_models_for(pairs, b)[k],
        ) by {
            if pairs.last().0 == b {
                assert(spec_models_for(pairs, b) == prev.push(pairs.last().1));
                if k < prev.len() {
                    assert(spec_models_for(pairs, b)[k] == prev[k]);
                }
            } else {
                assert(spec_models_for(pairs, b) == prev);
            }
        }
    }
}

/// Law (URL absolutization, catalog level): every link in any catalog
/// an extraction run can produce is empty or carries the root URL as
/// its exact prefix.
pub proof fn lemma_extraction_links_absolute(
    rv: Seq<Seq<CellView>>,
    r: Result<Option<Vec<Manufacturer>>, ExtractError>,
)
    requires
        is_extraction_outcome(rv, r),
    ensures
        r matches Ok(Some(brands)) ==> catalog_links_absolute(
            brands@.map_values(|m: Manufacturer| m@),
        ),
{
    match r {
        Ok(opt) => match opt {
            Some(brands) => {
                let pairs = spec_row_pairs(rv);
                let cat = spec_catalog(pairs);
                let ord = spec_brand_order(pairs);
                assert forall|i: int|
                    0 <= i < pairs.len() implies model_links_absolute(
                    (#[trigger] pairs[i]).1,
                ) by {
                    assert(pairs[i].1 == spec_row_model(spec_data_rows(rv)[i]));
                    lemma_row_model_links_absolute(spec_data_rows(rv)[i]);
                }
                assert forall|i: int, j: int|
                    0 <= i < cat.len() && 0 <= j < cat[i].models.len() implies model_links_absolute(
                    #[trigger] cat[i].models[j],
                ) by {
                    assert(cat[i] == (ManufacturerView {
                        name: ord[i],
                        models: spec_models_for(pairs, ord[i]),
                    }));
                    lemma_models_for_links(pairs, ord[i]);
                }
                assert(brands@.map_values(|m: Manufacturer| m@) == cat);
            },
            None => {},
        },
        Err(_) => {},
    }
}

/// Law (empty-result sentinel): a run with no data rows can only
/// produce the explicit no-data result — never a catalog, never an
/// error.
pub proof fn lemma_no_data_rows_no_data(
    rv: Seq<Seq<CellView>>,
    r: Result<Option<Vec<Manufacturer>>, ExtractError>,
)
    requires
        rv.len() <= 2,
        is_extraction_outcome(rv, r),
    ensures
        r == Ok::<Option<Vec<Manufacturer>>, ExtractError>(None),
{
    assert(!some_row_fatal(rv));
    assert(spec_data_rows(rv) =~= Seq::<Seq<CellView>>::empty());
}

/// Consumes a whole run of rows and builds the catalog: the two
/// header rows are skipped, each remaining row contributes its model
/// to its brand's bucket, brands keep first-seen order, and a run with
/// no data rows yields the explicit no-data result. Fails exactly when
/// some data row holds an anchor without a target.
pub fn extract_catalog(rows: &Vec<Vec<Cell>>) -> (r: Result<
    Option<Vec<Manufacturer>>,
    ExtractError,
>)
    ensures
        is_extraction_outcome(rows_view(rows@), r),
{
    let ghost rv = rows_view(rows@);
    let ghost pairs = spec_row_pairs(rv);
    if rows.len() <= 2 {
        proof {
            assert(spec_data_rows(rv) =~= Seq::<Seq<CellView>>::empty());
            assert(pairs.len() == 0);
        }
        return Ok(None);
    }
    let mut names: Vec<String> = Vec::new();
    let mut buckets: Vec<Vec<Model>> = Vec::new();
    let mut i: usize = 2;
    proof {
        assert(pairs.take(0) =~= Seq::<(Seq<char>, ModelView)>::empty());
    }
    while i < rows.len()
        invariant
            2 <= i <= rows@.len(),
            2 < rows@.len(),
            rv == rows_view(rows@),
            pairs == spec_row_pairs(rv),
            rv.len() == rows@.len(),
            pairs.len() == rv.len() - 2,
            forall|k: int| 2 <= k < i ==> !row_fatal(#[trigger] rv[k]),
            names@.len() == buckets@.len(),
            names@.map_values(|s: String| s@) == spec_brand_order(pairs.take(i - 2)),
            forall|j: int|
                0 <= j < buckets@.len() ==> (#[trigger] buckets@[j])@.map_values(|m: Model| m@)
                    == spec_models_for(pairs.take(i - 2), names@[j]@),
        decreases rows@.len() - i,
    {
        let ghost done = pairs.take(i - 2);
        let row = &rows[i];
        proof {
            assert(rv[i as int] == row_view(rows@[i as int]@));
            assert(spec_data_rows(rv)[i - 2] == rv[i as int]);
            assert(pairs[i - 2] == (spec_brand_name(rv[i as int]), spec_row_model(rv[i as int])));
        }
        match extract_row(row) {
            Err(e) => {
                proof {
                    assert(row_fatal(rv[i as int]));
                }
                return Err(e);
            },
            Ok((brand, model)) => {
                let ghost p = pairs[i - 2];
                proof {
                    assert(brand@ == p.0);
                    assert(model@ == p.1);
                    assert(pairs.take(i - 1) =~= done.push(p));
                    lemma_brand_order_push(done, p);
                    lemma_brand_order_no_dup(done);
                    lemma_brand_order_contains(done, p.0);
                }
                let mut j: usize = 0;
                while j < names.len() && !(names[j] == brand)
                    invariant
                        0 <= j <= names@.len(),
                        forall|k: int| 0 <= k < j ==> (#[trigger] names@[k])@ != brand@,
                    decreases names@.len() - j,
                {
                    j += 1;
                }
                if j < names.len() {
                    proof {
                        assert(names@[j as int]@ == brand@);
                        assert(names@.map_values(|s: String| s@)[j as int] == brand@);
                        assert(spec_brand_order(done).contains(p.0));
                        assert(spec_brand_order(done.push(p)) == spec_brand_order(done));
                    }
                    let mut bucket = buckets.remove(j);
                    bucket.push(model);
                    buckets.insert(j, bucket);
                    proof {
                        assert forall|k: int| 0 <= k < buckets@.len() implies (
                        #[trigger] buckets@[k])@.map_values(|m: Model| m@) == spec_models_for(
                            done.push(p),
                            names@[k]@,
                        ) by {
                            lemma_models_for_push(done, p, names@[k]@);
                            if k == j as int {
                            } else {
                                let nv = names@.map_values(|s: String| s@);
                                assert(nv[k] == names@[k]@);
                                assert(nv[j as int] == brand@);
                                assert(nv.no_duplicates()) by {
                                    lemma_brand_order_no_dup(done);
                                }
                                assert(names@[k]@ != p.0);
                            }
                        }
                    }
                } else {
                    proof {
                        let nv = names@.map_values(|s: String| s@);
                        assert forall|k: int| 0 <= k < nv.len() implies nv[k] != p.0 by {
                            assert(names@[k]@ != brand@);
                        }
                        assert(!nv.contains(p.0));
                        assert(spec_brand_order(done.push(p)) == spec_brand_order(done).push(p.0));
                        assert(!spec_has_brand(done, p.0)) by {
                            lemma_brand_order_contains(done, p.0);
                        }
                        lemma_models_for_absent(done, p.0);
                    }
                    names.push(brand);
                    let mut bucket: Vec<Model> = Vec::new();
                    bucket.push(model);
                    buckets.push(bucket);
                    proof {
                        assert(names@.map_values(|s: String| s@) =~= spec_brand_order(
                            done,
                        ).push(p.0));
                        assert forall|k: int| 0 <= k < buckets@.len() implies (
                        #[trigger] buckets@[k])@.map_values(|m: Model| m@) == spec_models_for(
                            done.push(p),
                            names@[k]@,
                        ) by {
                            lemma_models_for_push(done, p, names@[k]@);
                            if k == buckets@.len() - 1 {
                                assert(spec_models_for(done, p.0) =~= Seq::<ModelView>::empty());
                                assert(buckets@[k]@.map_values(|m: Model| m@) =~= seq![p.1]);
                                assert(spec_models_for(done.push(p), p.0) =~= seq![p.1]);
                            }
                        }
                    }
                }
                i += 1;
            },
        }
    }
    proof {
        assert(pairs.take(i - 2) =~= pairs);
        assert(!some_row_fatal(rv));
    }
    let ghost order = spec_brand_order(pairs);
    let ghost catalog = spec_catalog(pairs);
    let mut manufacturers: Vec<Manufacturer> = Vec::new();
    proof {
        assert(catalog.take(0) =~= Seq::<ManufacturerView>::empty());
    }
    while names.len() > 0
        invariant
            names@.len() == buckets@.len(),
            order == spec_brand_order(pairs),
            catalog == spec_catalog(pairs),
            manufacturers@.len() + names@.len() == order.len(),
            manufacturers@.map_values(|m: Manufacturer| m@) == catalog.take(
                manufacturers@.len() as int,
            ),
            forall|j: int|
                0 <= j < names@.len() ==> (#[trigger] names@[j])@ == order[manufacturers@.len()
                    + j],
            forall|j: int|
                0 <= j < buckets@.len() ==> (#[trigger] buckets@[j])@.map_values(|m: Model| m@)
                    == spec_models_for(pairs, names@[j]@),
        decreases names@.len(),
    {
        let ghost built = manufacturers@.len() as int;
        let name = names.remove(0);
        let bucket = buckets.remove(0);
        let m = Manufacturer::new(name, bucket);
        manufacturers.push(m);
        proof {
            assert(catalog[built] == (ManufacturerView {
                name: order[built],
                models: spec_models_for(pairs, order[built]),
            }));
            assert(m@ == catalog[built]);
            assert(manufacturers@.map_values(|m: Manufacturer| m@) =~= catalog.take(built + 1));
        }
    }
    if manufacturers.len() > 0 {
        proof {
            assert(manufacturers@.map_values(|m: Manufacturer| m@) =~= catalog);
            lemma_brand_order_empty(pairs);
        }
        Ok(Some(manufacturers))
    } else {
        proof {
            lemma_brand_order_empty(pairs);
        }
        Ok(None)
    }
}

} // verus!
