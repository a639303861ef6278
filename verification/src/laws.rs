use vstd::prelude::*;

use crate::document::DocView;
use crate::merge::MergeErrorView;
use crate::merge::find_index;
use crate::merge::lemma_find_index_from;
use crate::merge::mismatch_err;
use crate::merge::spec_merge;
use crate::merge::spec_merge_idx;
use crate::merge::spec_merge_map;
use crate::merge::spec_merge_sparse;
use crate::merge::spec_merge_tagged;
use crate::merge::spec_merge_zip;

verus! {

/// Leaf replacement: merging a patch leaf into a base leaf of the same
/// variant family always succeeds, and the result is the patch value
/// exactly, whatever the base held.
pub proof fn lemma_leaf_replacement(b: DocView, p: DocView)
    requires
        b.is_leaf(),
        b.same_variant(p),
    ensures
        spec_merge(b, p) == (p, None::<MergeErrorView>),
{
}

/// Type-mismatch detection: whenever exactly one of base and patch is a
/// leaf, the merge fails with a mismatch that names the base's shape and
/// carries the patch value, and reports the base unchanged.
pub proof fn lemma_type_mismatch(b: DocView, p: DocView)
    requires
        b.is_leaf() != p.is_leaf(),
    ensures
        spec_merge(b, p).0 == b,
        spec_merge(b, p).1 == mismatch_err(b, p),
{
}

/// Map union-override for disjoint keys, entry level: when no key of the
/// patch entries `p[i..]` occurs in the base contents `acc`, and the patch
/// keys are themselves distinct, the merge succeeds and the result is the
/// base entries unchanged followed by the patch entries unchanged — its key
/// set is the union of the two key sets.
pub proof fn lemma_map_union_disjoint_from(
    acc: Seq<(Seq<char>, DocView)>,
    p: Seq<(Seq<char>, DocView)>,
    i: int,
)
    requires
        0 <= i <= p.len(),
        forall|l: int, m: int| i <= l < m < p.len() ==> (#[trigger] p[l]).0 != (#[trigger] p[m]).0,
        forall|l: int, j: int|
            i <= l < p.len() && 0 <= j < acc.len() ==> (#[trigger] p[l]).0 != (
            #[trigger] acc[j]).0,
    ensures
        spec_merge_map(acc, p, i) == (acc + p.subrange(i, p.len() as int), None::<
            MergeErrorView,
        >),
    decreases p.len() - i,
{
    if i == p.len() {
        assert(acc + p.subrange(i, p.len() as int) =~= acc);
    } else {
        let k = p[i].0;
        lemma_find_index_from(acc, k, 0);
        assert(find_index(acc, k) is None);
        lemma_map_union_disjoint_from(acc.push(p[i]), p, i + 1);
        assert(acc.push(p[i]) + p.subrange(i + 1, p.len() as int) =~= acc + p.subrange(
            i,
            p.len() as int,
        ));
    }
}

/// Map union-override: merging disjoint-key ordered maps succeeds and
/// yields the base entries followed by the patch entries, each unchanged.
pub proof fn lemma_map_union_override(
    b: Seq<(Seq<char>, DocView)>,
    p: Seq<(Seq<char>, DocView)>,
)
    requires
        forall|l: int, m: int| 0 <= l < m < p.len() ==> (#[trigger] p[l]).0 != (#[trigger] p[m]).0,
        forall|l: int, j: int|
            0 <= l < p.len() && 0 <= j < b.len() ==> (#[trigger] p[l]).0 != (#[trigger] b[j]).0,
    ensures
        spec_merge(DocView::OrderedMap(b), DocView::OrderedMap(p)) == (DocView::OrderedMap(b + p),
        None::<MergeErrorView>),
{
    lemma_map_union_disjoint_from(b, p, 0);
    assert(p.subrange(0, p.len() as int) =~= p);
}

/// When `find_index` is handed a position that holds the key, with no
/// earlier position holding it, it returns exactly that position.
pub proof fn lemma_find_index_is<K, V>(s: Seq<(K, V)>, k: K, j: int)
    requires
        0 <= j < s.len(),
        s[j].0 == k,
        forall|l: int| 0 <= l < j ==> (#[trigger] s[l]).0 != k,
    ensures
        find_index(s, k) == Some(j),
{
    lemma_find_index_from(s, k, 0);
}

/// Frame property of the tagged fold: every position that exists before the
/// fold keeps its key, and keeps its whole entry when no remaining patch
/// key matches it.
pub proof fn lemma_tagged_frame(
    acc: Seq<(u32, (DocView, u32))>,
    p: Seq<(u32, (DocView, u32))>,
    i: int,
)
    requires
        0 <= i <= p.len(),
        spec_merge_tagged(acc, p, i).1 is None,
    ensures
        ({
            let r = spec_merge_tagged(acc, p, i).0;
            &&& r.len() >= acc.len()
            &&& forall|j: int| 0 <= j < acc.len() ==> (#[trigger] r[j]).0 == acc[j].0
            &&& forall|j: int|
                0 <= j < acc.len() && (forall|l: int|
                    i <= l < p.len() ==> (#[trigger] p[l]).0 != acc[j].0) ==> (#[trigger] r[j])
                    == acc[j]
        }),
    decreases p.len() - i,
{
    if i < p.len() {
        let k = p[i].0;
        lemma_find_index_from(acc, k, 0);
        match find_index(acc, k) {
            Some(j0) => {
                let m = spec_merge(acc[j0].1.0, p[i].1.0);
                let acc2 = acc.update(j0, (k, (m.0, p[i].1.1)));
                lemma_tagged_frame(acc2, p, i + 1);
            },
            None => {
                lemma_tagged_frame(acc.push(p[i]), p, i + 1);
            },
        }
    }
}

/// Tag independence, entry level: after a successful tagged fold, every
/// patch key's entry carries the patch's tag, and every base entry whose
/// key the remaining patch never mentions is untouched (so it keeps the
/// base's tag).
pub proof fn lemma_tagged_patch_tags(
    acc: Seq<(u32, (DocView, u32))>,
    p: Seq<(u32, (DocView, u32))>,
    i: int,
)
    requires
        0 <= i <= p.len(),
        forall|l: int, m: int| i <= l < m < p.len() ==> (#[trigger] p[l]).0 != (#[trigger] p[m]).0,
        spec_merge_tagged(acc, p, i).1 is None,
    ensures
        ({
            let r = spec_merge_tagged(acc, p, i).0;
            forall|l: int|
                i <= l < p.len() ==> (find_index(r, (#[trigger] p[l]).0) matches Some(j)
                    && r[j].1.1 == p[l].1.1)
        }),
    decreases p.len() - i,
{
    if i < p.len() {
        let r = spec_merge_tagged(acc, p, i).0;
        let k = p[i].0;
        lemma_find_index_from(acc, k, 0);
        match find_index(acc, k) {
            Some(j0) => {
                let m = spec_merge(acc[j0].1.0, p[i].1.0);
                let acc2 = acc.update(j0, (k, (m.0, p[i].1.1)));
                lemma_tagged_patch_tags(acc2, p, i + 1);
                lemma_tagged_frame(acc2, p, i + 1);
                assert(r[j0] == acc2[j0]);
                assert(forall|l: int| 0 <= l < j0 ==> (#[trigger] r[l]).0 != k);
                lemma_find_index_is(r, k, j0);
            },
            None => {
                let acc2 = acc.push(p[i]);
                let j0 = acc.len() as int;
                lemma_tagged_patch_tags(acc2, p, i + 1);
                lemma_tagged_frame(acc2, p, i + 1);
                assert(r[j0] == acc2[j0]);
                assert(forall|l: int| 0 <= l < j0 ==> (#[trigger] r[l]).0 != k);
                lemma_find_index_is(r, k, j0);
            },
        }
    }
}

/// Tag independence: in a successful tagged-map merge, the tag at every key
/// the patch mentions equals the patch's tag, and every base entry whose
/// key the patch does not mention is untouched, keeping the base's tag.
pub proof fn lemma_tag_independence(
    b: Seq<(u32, (DocView, u32))>,
    p: Seq<(u32, (DocView, u32))>,
)
    requires
        forall|l: int, m: int| 0 <= l < m < p.len() ==> (#[trigger] p[l]).0 != (#[trigger] p[m]).0,
        spec_merge(DocView::TaggedIndexMap(b), DocView::TaggedIndexMap(p)).1 is None,
    ensures
        ({
            let r = spec_merge_tagged(b, p, 0).0;
            &&& spec_merge(DocView::TaggedIndexMap(b), DocView::TaggedIndexMap(p)).0
                == DocView::TaggedIndexMap(r)
            &&& r.len() >= b.len()
            &&& forall|j: int| 0 <= j < b.len() ==> (#[trigger] r[j]).0 == b[j].0
            &&& forall|j: int|
                0 <= j < b.len() && (forall|l: int|
                    0 <= l < p.len() ==> (#[trigger] p[l]).0 != b[j].0) ==> (#[trigger] r[j])
                    == b[j]
            &&& forall|l: int|
                0 <= l < p.len() ==> (find_index(r, (#[trigger] p[l]).0) matches Some(j)
                    && r[j].1.1 == p[l].1.1)
        }),
{
    lemma_tagged_frame(b, p, 0);
    lemma_tagged_patch_tags(b, p, 0);
}

/// When the value under a patched key fails to merge, the tagged fold stops
/// at that entry before replacing its tag: the error propagates and the
/// base's tag stays beside the partially merged value.
pub proof fn lemma_tag_kept_on_nested_error(
    b: Seq<(u32, (DocView, u32))>,
    p: Seq<(u32, (DocView, u32))>,
    i: int,
    j: int,
)
    requires
        0 <= i < p.len(),
        find_index(b, p[i].0) == Some(j),
        spec_merge(b[j].1.0, p[i].1.0).1 is Some,
    ensures
        ({
            let r = spec_merge_tagged(b, p, i);
            &&& r.1 == spec_merge(b[j].1.0, p[i].1.0).1
            &&& 0 <= j < r.0.len()
            &&& r.0[j].1.1 == b[j].1.1
            &&& r.0[j].1.0 == spec_merge(b[j].1.0, p[i].1.0).0
        }),
{
    lemma_find_index_from(b, p[i].0, 0);
}

/// Well-formedness of the string-keyed fold: distinct keys and well-formed
/// values go in, distinct keys and well-formed values come out, also when
/// the fold stops at a nested error.
pub proof fn lemma_map_fold_wf(
    acc: Seq<(Seq<char>, DocView)>,
    p: Seq<(Seq<char>, DocView)>,
    i: int,
)
    requires
        0 <= i <= p.len(),
        forall|l: int, m: int|
            0 <= l < m < acc.len() ==> (#[trigger] acc[l]).0 != (#[trigger] acc[m]).0,
        forall|l: int| 0 <= l < acc.len() ==> (#[trigger] acc[l]).1.wf(),
        forall|l: int| i <= l < p.len() ==> (#[trigger] p[l]).1.wf(),
    ensures
        ({
            let r = spec_merge_map(acc, p, i).0;
            &&& forall|l: int, m: int|
                0 <= l < m < r.len() ==> (#[trigger] r[l]).0 != (#[trigger] r[m]).0
            &&& forall|l: int| 0 <= l < r.len() ==> (#[trigger] r[l]).1.wf()
        }),
    decreases p, p.len() - i, 0int,
{
    if i < p.len() {
        let k = p[i].0;
        lemma_find_index_from(acc, k, 0);
        match find_index(acc, k) {
            Some(j0) => {
                let m = spec_merge(acc[j0].1, p[i].1);
                lemma_merge_wf(acc[j0].1, p[i].1);
                let acc2 = acc.update(j0, (k, m.0));
                assert(forall|l: int| 0 <= l < acc2.len() ==> (#[trigger] acc2[l]).0 == acc[l].0);
                assert(forall|l: int| 0 <= l < acc2.len() ==> (#[trigger] acc2[l]).1.wf());
                lemma_map_fold_wf(acc2, p, i + 1);
                if m.1 is Some {
                    assert(spec_merge_map(acc, p, i).0 == acc2);
                } else {
                    assert(spec_merge_map(acc, p, i).0 == spec_merge_map(acc2, p, i + 1).0);
                }
            },
            None => {
                let acc2 = acc.push(p[i]);
                assert(forall|l: int| 0 <= l < acc2.len() ==> (#[trigger] acc2[l]).1.wf());
                lemma_map_fold_wf(acc2, p, i + 1);
                assert(spec_merge_map(acc, p, i).0 == spec_merge_map(acc2, p, i + 1).0);
            },
        }
    } else {
        assert(spec_merge_map(acc, p, i).0 == acc);
    }
}

/// As `lemma_map_fold_wf`, for the integer-keyed fold.
pub proof fn lemma_idx_fold_wf(acc: Seq<(u32, DocView)>, p: Seq<(u32, DocView)>, i: int)
    requires
        0 <= i <= p.len(),
        forall|l: int, m: int|
            0 <= l < m < acc.len() ==> (#[trigger] acc[l]).0 != (#[trigger] acc[m]).0,
        forall|l: int| 0 <= l < acc.len() ==> (#[trigger] acc[l]).1.wf(),
        forall|l: int| i <= l < p.len() ==> (#[trigger] p[l]).1.wf(),
    ensures
        ({
            let r = spec_merge_idx(acc, p, i).0;
            &&& forall|l: int, m: int|
                0 <= l < m < r.len() ==> (#[trigger] r[l]).0 != (#[trigger] r[m]).0
            &&& forall|l: int| 0 <= l < r.len() ==> (#[trigger] r[l]).1.wf()
        }),
    decreases p, p.len() - i, 0int,
{
    if i < p.len() {
        let k = p[i].0;
        lemma_find_index_from(acc, k, 0);
        match find_index(acc, k) {
            Some(j0) => {
                let m = spec_merge(acc[j0].1, p[i].1);
                lemma_merge_wf(acc[j0].1, p[i].1);
                let acc2 = acc.update(j0, (k, m.0));
                assert(forall|l: int| 0 <= l < acc2.len() ==> (#[trigger] acc2[l]).0 == acc[l].0);
                assert(forall|l: int| 0 <= l < acc2.len() ==> (#[trigger] acc2[l]).1.wf());
                lemma_idx_fold_wf(acc2, p, i + 1);
                if m.1 is Some {
                    assert(spec_merge_idx(acc, p, i).0 == acc2);
                } else {
                    assert(spec_merge_idx(acc, p, i).0 == spec_merge_idx(acc2, p, i + 1).0);
                }
            },
            None => {
                let acc2 = acc.push(p[i]);
                assert(forall|l: int| 0 <= l < acc2.len() ==> (#[trigger] acc2[l]).1.wf());
                lemma_idx_fold_wf(acc2, p, i + 1);
                assert(spec_merge_idx(acc, p, i).0 == spec_merge_idx(acc2, p, i + 1).0);
            },
        }
    } else {
        assert(spec_merge_idx(acc, p, i).0 == acc);
    }
}

/// As `lemma_map_fold_wf`, for the tagged fold.
pub proof fn lemma_tagged_fold_wf(
    acc: Seq<(u32, (DocView, u32))>,
    p: Seq<(u32, (DocView, u32))>,
    i: int,
)
    requires
        0 <= i <= p.len(),
        forall|l: int, m: int|
            0 <= l < m < acc.len() ==> (#[trigger] acc[l]).0 != (#[trigger] acc[m]).0,
        forall|l: int| 0 <= l < acc.len() ==> (#[trigger] acc[l]).1.0.wf(),
        forall|l: int| i <= l < p.len() ==> (#[trigger] p[l]).1.0.wf(),
    ensures
        ({
            let r = spec_merge_tagged(acc, p, i).0;
            &&& forall|l: int, m: int|
                0 <= l < m < r.len() ==> (#[trigger] r[l]).0 != (#[trigger] r[m]).0
            &&& forall|l: int| 0 <= l < r.len() ==> (#[trigger] r[l]).1.0.wf()
        }),
    decreases p, p.len() - i, 0int,
{
    if i < p.len() {
        let k = p[i].0;
        lemma_find_index_from(acc, k, 0);
        match find_index(acc, k) {
            Some(j0) => {
                let m = spec_merge(acc[j0].1.0, p[i].1.0);
                lemma_merge_wf(acc[j0].1.0, p[i].1.0);
                if m.1 is Some {
                    let acc2 = acc.update(j0, (k, (m.0, acc[j0].1.1)));
                    assert(forall|l: int|
                        0 <= l < acc2.len() ==> (#[trigger] acc2[l]).0 == acc[l].0);
                    assert(forall|l: int| 0 <= l < acc2.len() ==> (#[trigger] acc2[l]).1.0.wf());
                    assert(spec_merge_tagged(acc, p, i).0 == acc2);
                } else {
                    let acc2 = acc.update(j0, (k, (m.0, p[i].1.1)));
                    assert(forall|l: int|
                        0 <= l < acc2.len() ==> (#[trigger] acc2[l]).0 == acc[l].0);
                    assert(forall|l: int| 0 <= l < acc2.len() ==> (#[trigger] acc2[l]).1.0.wf());
                    lemma_tagged_fold_wf(acc2, p, i + 1);
                    assert(spec_merge_tagged(acc, p, i).0 == spec_merge_tagged(acc2, p, i + 1).0);
                }
            },
            None => {
                let acc2 = acc.push(p[i]);
                assert(forall|l: int| 0 <= l < acc2.len() ==> (#[trigger] acc2[l]).1.0.wf());
                lemma_tagged_fold_wf(acc2, p, i + 1);
                assert(spec_merge_tagged(acc, p, i).0 == spec_merge_tagged(acc2, p, i + 1).0);
            },
        }
    } else {
        assert(spec_merge_tagged(acc, p, i).0 == acc);
    }
}

/// Well-formedness of the sparse array fold.
pub proof fn lemma_sparse_fold_wf(b: Seq<DocView>, p: Seq<(u32, DocView)>, i: int)
    requires
        0 <= i <= p.len(),
        forall|l: int| 0 <= l < b.len() ==> (#[trigger] b[l]).wf(),
        forall|l: int| i <= l < p.len() ==> (#[trigger] p[l]).1.wf(),
    ensures
        ({
            let r = spec_merge_sparse(b, p, i).0;
            &&& r.len() == b.len()
            &&& forall|l: int| 0 <= l < r.len() ==> (#[trigger] r[l]).wf()
        }),
    decreases p, p.len() - i, 0int,
{
    if i < p.len() {
        let k = p[i].0;
        if k < b.len() {
            lemma_merge_wf(b[k as int], p[i].1);
            let m = spec_merge(b[k as int], p[i].1);
            if m.1 is None {
                lemma_sparse_fold_wf(b.update(k as int, m.0), p, i + 1);
            }
        }
    }
}

/// Well-formedness of the positional array fold.
pub proof fn lemma_zip_fold_wf(b: Seq<DocView>, p: Seq<DocView>, i: int)
    requires
        0 <= i <= p.len(),
        forall|l: int| 0 <= l < b.len() ==> (#[trigger] b[l]).wf(),
        forall|l: int| i <= l < p.len() ==> (#[trigger] p[l]).wf(),
    ensures
        ({
            let r = spec_merge_zip(b, p, i).0;
            &&& r.len() == b.len()
            &&& forall|l: int| 0 <= l < r.len() ==> (#[trigger] r[l]).wf()
        }),
    decreases p, p.len() - i, 0int,
{
    if i < p.len() && i < b.len() {
        lemma_merge_wf(b[i], p[i]);
        let m = spec_merge(b[i], p[i]);
        if m.1 is None {
            lemma_zip_fold_wf(b.update(i, m.0), p, i + 1);
        }
    }
}

/// Keys stay unique: merging well-formed documents yields a well-formed
/// document, also when the merge stops at an error and reports the document
/// as patched so far.
pub proof fn lemma_merge_wf(b: DocView, p: DocView)
    requires
        b.wf(),
        p.wf(),
    ensures
        spec_merge(b, p).0.wf(),
    decreases p, 0int, 1int,
{
    match b {
        DocView::OrderedMap(bs) => {
            match p {
                DocView::OrderedMap(ps) => {
                    lemma_map_fold_wf(bs, ps, 0);
                    let r = spec_merge_map(bs, ps, 0).0;
                    assert(spec_merge(b, p).0 == DocView::OrderedMap(r));
                    assert(DocView::OrderedMap(r).wf());
                },
                _ => {
                    assert(spec_merge(b, p).0 == b);
                },
            }
        },
        DocView::IndexMap(bs) => {
            match p {
                DocView::IndexMap(ps) => {
                    lemma_idx_fold_wf(bs, ps, 0);
                    let r = spec_merge_idx(bs, ps, 0).0;
                    assert(spec_merge(b, p).0 == DocView::IndexMap(r));
                    assert(DocView::IndexMap(r).wf());
                },
                _ => {
                    assert(spec_merge(b, p).0 == b);
                },
            }
        },
        DocView::TaggedIndexMap(bs) => {
            match p {
                DocView::TaggedIndexMap(ps) => {
                    lemma_tagged_fold_wf(bs, ps, 0);
                    let r = spec_merge_tagged(bs, ps, 0).0;
                    assert(spec_merge(b, p).0 == DocView::TaggedIndexMap(r));
                    assert(DocView::TaggedIndexMap(r).wf());
                },
                _ => {
                    assert(spec_merge(b, p).0 == b);
                },
            }
        },
        DocView::Array(bs) => {
            match p {
                DocView::IndexMap(ps) => {
                    lemma_sparse_fold_wf(bs, ps, 0);
                    let r = spec_merge_sparse(bs, ps, 0).0;
                    assert(spec_merge(b, p).0 == DocView::Array(r));
                    assert(DocView::Array(r).wf());
                },
                DocView::Array(ps) => {
                    lemma_zip_fold_wf(bs, ps, 0);
                    let r = spec_merge_zip(bs, ps, 0).0;
                    assert(spec_merge(b, p).0 == DocView::Array(r));
                    assert(DocView::Array(r).wf());
                },
                _ => {
                    assert(spec_merge(b, p).0 == b);
                },
            }
        },
        _ => {
        },
    }
}

/// A patch made solely of leaf overrides and ordered-map insertions: every
/// node is a leaf or an ordered map whose values are again such patches.
pub open spec fn leaf_map_patch(p: DocView) -> bool
    decreases p,
{
    match p {
        DocView::OrderedMap(s) => forall|l: int|
            0 <= l < s.len() ==> leaf_map_patch((#[trigger] s[l]).1),
        DocView::Array(_) => false,
        DocView::IndexMap(_) => false,
        DocView::TaggedIndexMap(_) => false,
        _ => true,
    }
}

/// Frame property of the string-keyed fold: every position that exists
/// before the fold keeps its key, and keeps its whole entry when no
/// remaining patch key matches it; every position the fold adds carries a
/// key of the remaining patch entries.
pub proof fn lemma_map_frame(
    acc: Seq<(Seq<char>, DocView)>,
    p: Seq<(Seq<char>, DocView)>,
    i: int,
)
    requires
        0 <= i <= p.len(),
        spec_merge_map(acc, p, i).1 is None,
    ensures
        ({
            let r = spec_merge_map(acc, p, i).0;
            &&& r.len() >= acc.len()
            &&& forall|j: int| 0 <= j < acc.len() ==> (#[trigger] r[j]).0 == acc[j].0
            &&& forall|j: int|
                0 <= j < acc.len() && (forall|l: int|
                    i <= l < p.len() ==> (#[trigger] p[l]).0 != acc[j].0) ==> (#[trigger] r[j])
                    == acc[j]
            &&& forall|j: int|
                acc.len() <= j < r.len() ==> exists|l: int|
                    i <= l < p.len() && (#[trigger] r[j]).0 == (#[trigger] p[l]).0
        }),
    decreases p.len() - i,
{
    if i < p.len() {
        let k = p[i].0;
        lemma_find_index_from(acc, k, 0);
        match find_index(acc, k) {
            Some(j0) => {
                let m = spec_merge(acc[j0].1, p[i].1);
                let acc2 = acc.update(j0, (k, m.0));
                lemma_map_frame(acc2, p, i + 1);
            },
            None => {
                let acc2 = acc.push(p[i]);
                lemma_map_frame(acc2, p, i + 1);
                let r = spec_merge_map(acc, p, i).0;
                assert forall|j: int| acc.len() <= j < r.len() implies exists|l: int|
                    i <= l < p.len() && (#[trigger] r[j]).0 == (#[trigger] p[l]).0 by {
                    if j == acc.len() {
                        assert(r[j].0 == acc2[j].0);
                        assert(r[j].0 == p[i].0);
                    }
                }
            },
        }
    }
}

/// Union-override, entry level: after a successful fold of patch entries
/// with distinct keys, each patch entry's key is found in the result; a key
/// that was already present keeps its position and holds the value merged
/// recursively from what the base held there, and a fresh key's entry holds
/// the patch's value unchanged.
pub proof fn lemma_map_patch_values(
    acc: Seq<(Seq<char>, DocView)>,
    p: Seq<(Seq<char>, DocView)>,
    i: int,
)
    requires
        0 <= i <= p.len(),
        forall|l: int, m: int| i <= l < m < p.len() ==> (#[trigger] p[l]).0 != (#[trigger] p[m]).0,
        spec_merge_map(acc, p, i).1 is None,
    ensures
        ({
            let r = spec_merge_map(acc, p, i).0;
            forall|l: int|
                i <= l < p.len() ==> match find_index(acc, (#[trigger] p[l]).0) {
                    Some(j) => find_index(r, p[l].0) == Some(j) && r[j].1 == spec_merge(
                        acc[j].1,
                        p[l].1,
                    ).0,
                    None => (find_index(r, p[l].0) matches Some(j) && r[j].1 == p[l].1),
                }
        }),
    decreases p.len() - i,
{
    if i < p.len() {
        let r = spec_merge_map(acc, p, i).0;
        let k = p[i].0;
        lemma_find_index_from(acc, k, 0);
        match find_index(acc, k) {
            Some(j0) => {
                let m = spec_merge(acc[j0].1, p[i].1);
                let acc2 = acc.update(j0, (k, m.0));
                lemma_map_patch_values(acc2, p, i + 1);
                lemma_map_frame(acc2, p, i + 1);
                assert(r[j0] == acc2[j0]);
                assert(forall|l: int| 0 <= l < j0 ==> (#[trigger] r[l]).0 != k);
                lemma_find_index_is(r, k, j0);
                assert forall|l: int| i < l < p.len() implies match find_index(
                    acc,
                    (#[trigger] p[l]).0,
                ) {
                    Some(j) => find_index(r, p[l].0) == Some(j) && r[j].1 == spec_merge(
                        acc[j].1,
                        p[l].1,
                    ).0,
                    None => (find_index(r, p[l].0) matches Some(j) && r[j].1 == p[l].1),
                } by {
                    lemma_find_index_from(acc, p[l].0, 0);
                    lemma_find_index_from(acc2, p[l].0, 0);
                    match find_index(acc, p[l].0) {
                        Some(j) => {
                            assert(acc2[j] == acc[j]);
                            lemma_find_index_is(acc2, p[l].0, j);
                        },
                        None => {
                            assert(find_index(acc2, p[l].0) is None);
                        },
                    }
                }
            },
            None => {
                let acc2 = acc.push(p[i]);
                let j0 = acc.len() as int;
                lemma_map_patch_values(acc2, p, i + 1);
                lemma_map_frame(acc2, p, i + 1);
                assert(r[j0] == acc2[j0]);
                assert(forall|l: int| 0 <= l < j0 ==> (#[trigger] r[l]).0 != k);
                lemma_find_index_is(r, k, j0);
                assert forall|l: int| i < l < p.len() implies match find_index(
                    acc,
                    (#[trigger] p[l]).0,
                ) {
                    Some(j) => find_index(r, p[l].0) == Some(j) && r[j].1 == spec_merge(
                        acc[j].1,
                        p[l].1,
                    ).0,
                    None => (find_index(r, p[l].0) matches Some(j) && r[j].1 == p[l].1),
                } by {
                    lemma_find_index_from(acc, p[l].0, 0);
                    lemma_find_index_from(acc2, p[l].0, 0);
                    match find_index(acc, p[l].0) {
                        Some(j) => {
                            assert(acc2[j] == acc[j]);
                            lemma_find_index_is(acc2, p[l].0, j);
                        },
                        None => {
                            assert(find_index(acc2, p[l].0) is None);
                        },
                    }
                }
            },
        }
    }
}

/// Union-override in full: in a successful ordered-map merge with distinct
/// patch keys, the result's key set is the union of the two key sets — base
/// positions keep their keys, every added position carries a patch key, and
/// every patch key is found — where a shared key holds the value merged
/// recursively from the base's value, a patch-only key holds the patch's
/// value unchanged, and a base entry whose key the patch never mentions is
/// untouched.
pub proof fn lemma_map_union_values(
    b: Seq<(Seq<char>, DocView)>,
    p: Seq<(Seq<char>, DocView)>,
)
    requires
        forall|l: int, m: int| 0 <= l < m < p.len() ==> (#[trigger] p[l]).0 != (#[trigger] p[m]).0,
        spec_merge(DocView::OrderedMap(b), DocView::OrderedMap(p)).1 is None,
    ensures
        ({
            let r = spec_merge_map(b, p, 0).0;
            &&& spec_merge(DocView::OrderedMap(b), DocView::OrderedMap(p)).0
                == DocView::OrderedMap(r)
            &&& r.len() >= b.len()
            &&& forall|j: int| 0 <= j < b.len() ==> (#[trigger] r[j]).0 == b[j].0
            &&& forall|j: int|
                b.len() <= j < r.len() ==> exists|l: int|
                    0 <= l < p.len() && (#[trigger] r[j]).0 == (#[trigger] p[l]).0
            &&& forall|j: int|
                0 <= j < b.len() && (forall|l: int|
                    0 <= l < p.len() ==> (#[trigger] p[l]).0 != b[j].0) ==> (#[trigger] r[j])
                    == b[j]
            &&& forall|l: int|
                0 <= l < p.len() ==> match find_index(b, (#[trigger] p[l]).0) {
                    Some(j) => find_index(r, p[l].0) == Some(j) && r[j].1 == spec_merge(
                        b[j].1,
                        p[l].1,
                    ).0,
                    None => (find_index(r, p[l].0) matches Some(j) && r[j].1 == p[l].1),
                }
        }),
{
    lemma_map_frame(b, p, 0);
    lemma_map_patch_values(b, p, 0);
}

/// A well-formed patch of leaf overrides and map insertions merged into
/// itself succeeds and leaves the value unchanged.
pub proof fn lemma_self_merge(x: DocView)
    requires
        leaf_map_patch(x),
        x.wf(),
    ensures
        spec_merge(x, x) == (x, None::<MergeErrorView>),
    decreases x, 0int,
{
    match x {
        DocView::OrderedMap(s) => {
            lemma_self_merge_map(s, 0);
        },
        _ => {
        },
    }
}

/// Entry level of `lemma_self_merge`: folding the entries `s[i..]` of a
/// well-formed leafy map into the map itself changes nothing and succeeds.
pub proof fn lemma_self_merge_map(s: Seq<(Seq<char>, DocView)>, i: int)
    requires
        0 <= i <= s.len(),
        forall|l: int, m: int| 0 <= l < m < s.len() ==> (#[trigger] s[l]).0 != (#[trigger] s[m]).0,
        forall|l: int| 0 <= l < s.len() ==> leaf_map_patch((#[trigger] s[l]).1),
        forall|l: int| 0 <= l < s.len() ==> (#[trigger] s[l]).1.wf(),
    ensures
        spec_merge_map(s, s, i) == (s, None::<MergeErrorView>),
    decreases s, s.len() - i,
{
    if i < s.len() {
        let k = s[i].0;
        lemma_find_index_is(s, k, i);
        lemma_self_merge(s[i].1);
        assert(s.update(i, (k, s[i].1)) =~= s);
        lemma_self_merge_map(s, i + 1);
    }
}

/// Idempotence, entry level: a second fold of the same patch entries over a
/// successful first fold's result changes nothing and succeeds.
pub proof fn lemma_map_idem(
    acc: Seq<(Seq<char>, DocView)>,
    p: Seq<(Seq<char>, DocView)>,
    i: int,
)
    requires
        0 <= i <= p.len(),
        forall|l: int, m: int| i <= l < m < p.len() ==> (#[trigger] p[l]).0 != (#[trigger] p[m]).0,
        forall|l: int| i <= l < p.len() ==> leaf_map_patch((#[trigger] p[l]).1),
        forall|l: int| i <= l < p.len() ==> (#[trigger] p[l]).1.wf(),
        spec_merge_map(acc, p, i).1 is None,
    ensures
        ({
            let r = spec_merge_map(acc, p, i).0;
            spec_merge_map(r, p, i) == (r, None::<MergeErrorView>)
        }),
    decreases p, p.len() - i,
{
    if i < p.len() {
        let r = spec_merge_map(acc, p, i).0;
        let k = p[i].0;
        lemma_find_index_from(acc, k, 0);
        match find_index(acc, k) {
            Some(j0) => {
                let m = spec_merge(acc[j0].1, p[i].1);
                let acc2 = acc.update(j0, (k, m.0));
                lemma_map_idem(acc2, p, i + 1);
                lemma_map_frame(acc2, p, i + 1);
                assert(r[j0] == acc2[j0]);
                assert(forall|l: int| 0 <= l < j0 ==> (#[trigger] r[l]).0 != k);
                lemma_find_index_is(r, k, j0);
                lemma_merge_idempotent(acc[j0].1, p[i].1);
                assert(r.update(j0, (k, m.0)) =~= r);
            },
            None => {
                let acc2 = acc.push(p[i]);
                let j0 = acc.len() as int;
                lemma_map_idem(acc2, p, i + 1);
                lemma_map_frame(acc2, p, i + 1);
                assert(r[j0] == acc2[j0]);
                assert(forall|l: int| 0 <= l < j0 ==> (#[trigger] r[l]).0 != k);
                lemma_find_index_is(r, k, j0);
                lemma_self_merge(p[i].1);
                assert(r.update(j0, (k, p[i].1)) =~= r);
            },
        }
    }
}

/// Idempotence: applying a well-formed patch of leaf overrides and map
/// insertions a second time to a successful merge's result changes nothing
/// and succeeds.
pub proof fn lemma_merge_idempotent(b: DocView, p: DocView)
    requires
        leaf_map_patch(p),
        p.wf(),
        spec_merge(b, p).1 is None,
    ensures
        ({
            let r = spec_merge(b, p).0;
            spec_merge(r, p) == (r, None::<MergeErrorView>)
        }),
    decreases p, 1int,
{
    match p {
        DocView::OrderedMap(ps) => {
            match b {
                DocView::OrderedMap(bs) => {
                    lemma_map_idem(bs, ps, 0);
                },
                _ => {
                },
            }
        },
        _ => {
        },
    }
}

} // verus!
