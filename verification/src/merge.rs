use vstd::pervasive::VecAdditionalExecFns;
use vstd::prelude::*;

use crate::document::DocView;
use crate::document::Document;
use crate::document::elems_view;
use crate::document::idx_entries_view;
use crate::document::str_entries_view;
use crate::document::tag_entries_view;

verus! {

/// The single error of the merge engine: the patch node's shape is
/// structurally incompatible with the base node it was matched against.
/// Carries the name of the shape that was expected and the offending patch
/// value (for an out-of-range array index, the index itself).
#[derive(Debug)]
pub enum MergeError {
    Mismatch(String, Document),
}

/// The mathematical content of a `MergeError`.
#[verifier::ext_equal]
pub struct MergeErrorView {
    pub expected: Seq<char>,
    pub found: DocView,
}

impl View for MergeError {
    type V = MergeErrorView;

    open spec fn view(&self) -> MergeErrorView {
        match self {
            MergeError::Mismatch(expected, found) => MergeErrorView {
                expected: expected@,
                found: found@,
            },
        }
    }
}

impl MergeError {
    /// The name of the shape that the failing base node expected.
    pub fn expected_shape(&self) -> (r: &String)
        ensures
            r@ == self@.expected,
    {
        match self {
            MergeError::Mismatch(expected, _) => expected,
        }
    }

    /// The patch value that failed to satisfy the expected shape.
    pub fn offending_value(&self) -> (r: &Document)
        ensures
            r@ == self@.found,
    {
        match self {
            MergeError::Mismatch(_, found) => found,
        }
    }
}

/// View of an optional error.
pub open spec fn err_view(e: Option<MergeError>) -> Option<MergeErrorView> {
    match e {
        Some(m) => Some(m@),
        None => None,
    }
}

/// The first position at or after `i` whose key equals `k`, if any.
pub open spec fn find_index_from<K, V>(s: Seq<(K, V)>, k: K, i: int) -> Option<int>
    decreases s.len() - i,
{
    if i < 0 || i >= s.len() {
        None
    } else if s[i].0 == k {
        Some(i)
    } else {
        find_index_from(s, k, i + 1)
    }
}

/// The first position whose key equals `k`, if any.
pub open spec fn find_index<K, V>(s: Seq<(K, V)>, k: K) -> Option<int> {
    find_index_from(s, k, 0)
}

/// What `find_index_from` returns: the first hit at or after `i`, with no
/// hit before it, or nothing when no key at or after `i` matches.
pub proof fn lemma_find_index_from<K, V>(s: Seq<(K, V)>, k: K, i: int)
    requires
        0 <= i <= s.len(),
    ensures
        match find_index_from(s, k, i) {
            Some(j) => i <= j < s.len() && s[j].0 == k && (forall|l: int|
                i <= l < j ==> (#[trigger] s[l]).0 != k),
            None => forall|l: int| i <= l < s.len() ==> (#[trigger] s[l]).0 != k,
        },
    decreases s.len() - i,
{
    if i < s.len() && s[i].0 != k {
        lemma_find_index_from(s, k, i + 1);
    }
}

/// The mismatch raised when `base` refuses the shape of `patch`.
pub open spec fn mismatch_err(base: DocView, patch: DocView) -> Option<MergeErrorView> {
    Some(MergeErrorView { expected: base.shape_name(), found: patch })
}

/// Folds the patch entries `p[i..]` into the string-keyed map contents
/// `acc`: an entry whose key is present merges recursively into the held
/// value, one whose key is absent is appended. Stops at the first nested
/// error, returning the contents patched so far beside it.
pub open spec fn spec_merge_map(
    acc: Seq<(Seq<char>, DocView)>,
    p: Seq<(Seq<char>, DocView)>,
    i: int,
) -> (Seq<(Seq<char>, DocView)>, Option<MergeErrorView>)
    decreases p, p.len() - i,
{
    if i < 0 || i >= p.len() {
        (acc, None)
    } else {
        let k = p[i].0;
        match find_index(acc, k) {
            Some(j) => {
                let m = spec_merge(acc[j].1, p[i].1);
                let acc2 = acc.update(j, (k, m.0));
                if m.1 is Some {
                    (acc2, m.1)
                } else {
                    spec_merge_map(acc2, p, i + 1)
                }
            },
            None => spec_merge_map(acc.push(p[i]), p, i + 1),
        }
    }
}

/// As `spec_merge_map`, for the integer-keyed map contents of an index map.
pub open spec fn spec_merge_idx(
    acc: Seq<(u32, DocView)>,
    p: Seq<(u32, DocView)>,
    i: int,
) -> (Seq<(u32, DocView)>, Option<MergeErrorView>)
    decreases p, p.len() - i,
{
    if i < 0 || i >= p.len() {
        (acc, None)
    } else {
        let k = p[i].0;
        match find_index(acc, k) {
            Some(j) => {
                let m = spec_merge(acc[j].1, p[i].1);
                let acc2 = acc.update(j, (k, m.0));
                if m.1 is Some {
                    (acc2, m.1)
                } else {
                    spec_merge_idx(acc2, p, i + 1)
                }
            },
            None => spec_merge_idx(acc.push(p[i]), p, i + 1),
        }
    }
}

/// Folds the tagged patch entries `p[i..]` into `acc`: for a key already
/// present, the value merges recursively and the tag is replaced wholesale
/// by the patch's tag; an absent key is appended with its full entry. A
/// nested error stops the fold before the failing entry's tag is replaced.
pub open spec fn spec_merge_tagged(
    acc: Seq<(u32, (DocView, u32))>,
    p: Seq<(u32, (DocView, u32))>,
    i: int,
) -> (Seq<(u32, (DocView, u32))>, Option<MergeErrorView>)
    decreases p, p.len() - i,
{
    if i < 0 || i >= p.len() {
        (acc, None)
    } else {
        let k = p[i].0;
        match find_index(acc, k) {
            Some(j) => {
                let m = spec_merge(acc[j].1.0, p[i].1.0);
                if m.1 is Some {
                    (acc.update(j, (k, (m.0, acc[j].1.1))), m.1)
                } else {
                    spec_merge_tagged(acc.update(j, (k, (m.0, p[i].1.1))), p, i + 1)
                }
            },
            None => spec_merge_tagged(acc.push(p[i]), p, i + 1),
        }
    }
}

/// Applies the sparse patch entries `p[i..]` to the array contents `b`: each
/// entry merges recursively into the element at its index. An out-of-range
/// index stops the fold with a mismatch that carries the index itself.
pub open spec fn spec_merge_sparse(
    b: Seq<DocView>,
    p: Seq<(u32, DocView)>,
    i: int,
) -> (Seq<DocView>, Option<MergeErrorView>)
    decreases p, p.len() - i,
{
    if i < 0 || i >= p.len() {
        (b, None)
    } else {
        let k = p[i].0;
        if k < b.len() {
            let m = spec_merge(b[k as int], p[i].1);
            let b2 = b.update(k as int, m.0);
            if m.1 is Some {
                (b2, m.1)
            } else {
                spec_merge_sparse(b2, p, i + 1)
            }
        } else {
            (b, Some(MergeErrorView { expected: "Array"@, found: DocView::U32(k) }))
        }
    }
}

/// Merges the patch elements `p[i..]` positionally into the array contents
/// `b`, up to the shorter length: patch elements beyond `b`'s length are
/// dropped, base elements beyond `p`'s length are untouched.
pub open spec fn spec_merge_zip(
    b: Seq<DocView>,
    p: Seq<DocView>,
    i: int,
) -> (Seq<DocView>, Option<MergeErrorView>)
    decreases p, p.len() - i,
{
    if i < 0 || i >= p.len() || i >= b.len() {
        (b, None)
    } else {
        let m = spec_merge(b[i], p[i]);
        let b2 = b.update(i, m.0);
        if m.1 is Some {
            (b2, m.1)
        } else {
            spec_merge_zip(b2, p, i + 1)
        }
    }
}

/// The merge of `patch` into `base`: the merged document, or, on the first
/// irreconcilable mismatch met in traversal order, the document as patched
/// up to that point beside the error. Dispatch is by the variant of `base`;
/// a leaf accepts only the same leaf variant and is replaced wholesale, an
/// array accepts an array (positional) or an index map (sparse), and each
/// map shape accepts exactly itself.
pub open spec fn spec_merge(base: DocView, patch: DocView) -> (DocView, Option<MergeErrorView>)
    decreases patch, 0int,
{
    match base {
        DocView::OrderedMap(b) => match patch {
            DocView::OrderedMap(p) => {
                let m = spec_merge_map(b, p, 0);
                (DocView::OrderedMap(m.0), m.1)
            },
            _ => (base, mismatch_err(base, patch)),
        },
        DocView::IndexMap(b) => match patch {
            DocView::IndexMap(p) => {
                let m = spec_merge_idx(b, p, 0);
                (DocView::IndexMap(m.0), m.1)
            },
            _ => (base, mismatch_err(base, patch)),
        },
        DocView::TaggedIndexMap(b) => match patch {
            DocView::TaggedIndexMap(p) => {
                let m = spec_merge_tagged(b, p, 0);
                (DocView::TaggedIndexMap(m.0), m.1)
            },
            _ => (base, mismatch_err(base, patch)),
        },
        DocView::Array(b) => match patch {
            DocView::IndexMap(p) => {
                let m = spec_merge_sparse(b, p, 0);
                (DocView::Array(m.0), m.1)
            },
            DocView::Array(p) => {
                let m = spec_merge_zip(b, p, 0);
                (DocView::Array(m.0), m.1)
            },
            _ => (base, mismatch_err(base, patch)),
        },
        _ => {
            if base.same_variant(patch) {
                (patch, None)
            } else {
                (base, mismatch_err(base, patch))
            }
        },
    }
}

/// Position of the first entry of `v` whose key equals `key`, if any.
#[verifier::loop_isolation(false)]
fn find_str(v: &Vec<(String, Document)>, key: &String) -> (r: Option<usize>)
    ensures
        ({
            let s = str_entries_view(v@);
            match r {
                Some(u) => u < v@.len() && find_index(s, key@) == Some(u as int),
                None => find_index(s, key@) is None,
            }
        }),
{
    let ghost s = str_entries_view(v@);
    let mut i: usize = 0;
    while i < v.len()
        invariant
            i <= v@.len(),
            find_index_from(s, key@, 0) == find_index_from(s, key@, i as int),
        decreases v@.len() - i,
    {
        let e = &v[i];
        if e.0 == *key {
            assert(s[i as int].0 == key@);
            return Some(i);
        }
        assert(s[i as int].0 != key@);
        i = i + 1;
    }
    None
}

/// Position of the first entry of `v` whose key equals `key`, if any.
#[verifier::loop_isolation(false)]
fn find_idx(v: &Vec<(u32, Document)>, key: u32) -> (r: Option<usize>)
    ensures
        ({
            let s = idx_entries_view(v@);
            match r {
                Some(u) => u < v@.len() && find_index(s, key) == Some(u as int),
                None => find_index(s, key) is None,
            }
        }),
{
    let ghost s = idx_entries_view(v@);
    let mut i: usize = 0;
    while i < v.len()
        invariant
            i <= v@.len(),
            find_index_from(s, key, 0) == find_index_from(s, key, i as int),
        decreases v@.len() - i,
    {
        let e = &v[i];
        if e.0 == key {
            assert(s[i as int].0 == key);
            return Some(i);
        }
        assert(s[i as int].0 != key);
        i = i + 1;
    }
    None
}

/// Position of the first tagged entry of `v` whose key equals `key`, if any.
#[verifier::loop_isolation(false)]
fn find_tag(v: &Vec<(u32, (Document, u32))>, key: u32) -> (r: Option<usize>)
    ensures
        ({
            let s = tag_entries_view(v@);
            match r {
                Some(u) => u < v@.len() && find_index(s, key) == Some(u as int),
                None => find_index(s, key) is None,
            }
        }),
{
    let ghost s = tag_entries_view(v@);
    let mut i: usize = 0;
    while i < v.len()
        invariant
            i <= v@.len(),
            find_index_from(s, key, 0) == find_index_from(s, key, i as int),
        decreases v@.len() - i,
    {
        let e = &v[i];
        if e.0 == key {
            assert(s[i as int].0 == key);
            return Some(i);
        }
        assert(s[i as int].0 != key);
        i = i + 1;
    }
    None
}

/// Folds the patch entries `p[i..]` into the string-keyed contents `acc`.
fn merge_map_entries(acc: Vec<(String, Document)>, p: &Vec<(String, Document)>, i: usize) -> (r: (
    Vec<(String, Document)>,
    Option<MergeError>,
))
    requires
        i <= p@.len(),
    ensures
        ({
            let m = spec_merge_map(str_entries_view(acc@), str_entries_view(p@), i as int);
            str_entries_view(r.0@) == m.0 && err_view(r.1) == m.1
        }),
    decreases p, p@.len() - i,
{
    let mut acc = acc;
    if i == p.len() {
        return (acc, None);
    }
    let ghost s0 = str_entries_view(acc@);
    let ghost pv = str_entries_view(p@);
    let e = &p[i];
    match find_str(&acc, &e.0) {
        Some(j) => {
            proof {
                lemma_find_index_from(s0, e.0@, 0);
            }
            let mut slot: (String, Document) = (String::new(), Document::Null);
            acc.set_and_swap(j, &mut slot);
            let (bk, bv) = slot;
            let (merged, err) = merge_doc(bv, &e.1);
            let mut slot2: (String, Document) = (bk, merged);
            acc.set_and_swap(j, &mut slot2);
            proof {
                let m = spec_merge(s0[j as int].1, pv[i as int].1);
                assert(str_entries_view(acc@) =~= s0.update(j as int, (pv[i as int].0, m.0)));
            }
            match err {
                Some(er) => (acc, Some(er)),
                None => merge_map_entries(acc, p, i + 1),
            }
        },
        None => {
            let k2 = e.0.clone();
            let v2 = (&e.1).deep_copy();
            acc.push((k2, v2));
            proof {
                assert(str_entries_view(acc@) =~= s0.push(pv[i as int]));
            }
            merge_map_entries(acc, p, i + 1)
        },
    }
}

/// Folds the patch entries `p[i..]` into the integer-keyed contents `acc`.
fn merge_idx_entries(acc: Vec<(u32, Document)>, p: &Vec<(u32, Document)>, i: usize) -> (r: (
    Vec<(u32, Document)>,
    Option<MergeError>,
))
    requires
        i <= p@.len(),
    ensures
        ({
            let m = spec_merge_idx(idx_entries_view(acc@), idx_entries_view(p@), i as int);
            idx_entries_view(r.0@) == m.0 && err_view(r.1) == m.1
        }),
    decreases p, p@.len() - i,
{
    let mut acc = acc;
    if i == p.len() {
        return (acc, None);
    }
    let ghost s0 = idx_entries_view(acc@);
    let ghost pv = idx_entries_view(p@);
    let e = &p[i];
    match find_idx(&acc, e.0) {
        Some(j) => {
            proof {
                lemma_find_index_from(s0, e.0, 0);
            }
            let mut slot: (u32, Document) = (0, Document::Null);
            acc.set_and_swap(j, &mut slot);
            let (bk, bv) = slot;
            let (merged, err) = merge_doc(bv, &e.1);
            let mut slot2: (u32, Document) = (bk, merged);
            acc.set_and_swap(j, &mut slot2);
            proof {
                let m = spec_merge(s0[j as int].1, pv[i as int].1);
                assert(idx_entries_view(acc@) =~= s0.update(j as int, (pv[i as int].0, m.0)));
            }
            match err {
                Some(er) => (acc, Some(er)),
                None => merge_idx_entries(acc, p, i + 1),
            }
        },
        None => {
            let v2 = (&e.1).deep_copy();
            acc.push((e.0, v2));
            proof {
                assert(idx_entries_view(acc@) =~= s0.push(pv[i as int]));
            }
            merge_idx_entries(acc, p, i + 1)
        },
    }
}

/// Folds the tagged patch entries `p[i..]` into the contents `acc`.
fn merge_tag_entries(
    acc: Vec<(u32, (Document, u32))>,
    p: &Vec<(u32, (Document, u32))>,
    i: usize,
) -> (r: (Vec<(u32, (Document, u32))>, Option<MergeError>))
    requires
        i <= p@.len(),
    ensures
        ({
            let m = spec_merge_tagged(tag_entries_view(acc@), tag_entries_view(p@), i as int);
            tag_entries_view(r.0@) == m.0 && err_view(r.1) == m.1
        }),
    decreases p, p@.len() - i,
{
    let mut acc = acc;
    if i == p.len() {
        return (acc, None);
    }
    let ghost s0 = tag_entries_view(acc@);
    let ghost pv = tag_entries_view(p@);
    let e = &p[i];
    match find_tag(&acc, e.0) {
        Some(j) => {
            proof {
                lemma_find_index_from(s0, e.0, 0);
            }
            let mut slot: (u32, (Document, u32)) = (0, (Document::Null, 0));
            acc.set_and_swap(j, &mut slot);
            let (bk, bpair) = slot;
            let (bdoc, btag) = bpair;
            let (merged, err) = merge_doc(bdoc, &e.1.0);
            match err {
                Some(er) => {
                    let mut slot2: (u32, (Document, u32)) = (bk, (merged, btag));
                    acc.set_and_swap(j, &mut slot2);
                    proof {
                        let m = spec_merge(s0[j as int].1.0, pv[i as int].1.0);
                        assert(tag_entries_view(acc@) =~= s0.update(
                            j as int,
                            (pv[i as int].0, (m.0, s0[j as int].1.1)),
                        ));
                    }
                    (acc, Some(er))
                },
                None => {
                    let mut slot2: (u32, (Document, u32)) = (bk, (merged, e.1.1));
                    acc.set_and_swap(j, &mut slot2);
                    proof {
                        let m = spec_merge(s0[j as int].1.0, pv[i as int].1.0);
                        assert(tag_entries_view(acc@) =~= s0.update(
                            j as int,
                            (pv[i as int].0, (m.0, pv[i as int].1.1)),
                        ));
                    }
                    merge_tag_entries(acc, p, i + 1)
                },
            }
        },
        None => {
            let v2 = (&e.1.0).deep_copy();
            acc.push((e.0, (v2, e.1.1)));
            proof {
                assert(tag_entries_view(acc@) =~= s0.push(pv[i as int]));
            }
            merge_tag_entries(acc, p, i + 1)
        },
    }
}

/// Applies the sparse patch entries `p[i..]` to the array contents `b`.
fn merge_sparse_entries(b: Vec<Document>, p: &Vec<(u32, Document)>, i: usize) -> (r: (
    Vec<Document>,
    Option<MergeError>,
))
    requires
        i <= p@.len(),
    ensures
        ({
            let m = spec_merge_sparse(elems_view(b@), idx_entries_view(p@), i as int);
            elems_view(r.0@) == m.0 && err_view(r.1) == m.1
        }),
    decreases p, p@.len() - i,
{
    let mut b = b;
    if i == p.len() {
        return (b, None);
    }
    let ghost b0 = elems_view(b@);
    let ghost pv = idx_entries_view(p@);
    let e = &p[i];
    let k = e.0;
    if (k as usize) < b.len() {
        let mut slot = Document::Null;
        b.set_and_swap(k as usize, &mut slot);
        let (merged, err) = merge_doc(slot, &e.1);
        let mut slot2 = merged;
        b.set_and_swap(k as usize, &mut slot2);
        proof {
            let m = spec_merge(b0[k as int], pv[i as int].1);
            assert(elems_view(b@) =~= b0.update(k as int, m.0));
        }
        match err {
            Some(er) => (b, Some(er)),
            None => merge_sparse_entries(b, p, i + 1),
        }
    } else {
        let found = Document::U32(k);
        (b, Some(MergeError::Mismatch(String::from_str("Array"), found)))
    }
}

/// Merges the patch elements `p[i..]` positionally into the array `b`.
fn merge_zip_entries(b: Vec<Document>, p: &Vec<Document>, i: usize) -> (r: (
    Vec<Document>,
    Option<MergeError>,
))
    requires
        i <= p@.len(),
    ensures
        ({
            let m = spec_merge_zip(elems_view(b@), elems_view(p@), i as int);
            elems_view(r.0@) == m.0 && err_view(r.1) == m.1
        }),
    decreases p, p@.len() - i,
{
    let mut b = b;
    if i == p.len() || i >= b.len() {
        return (b, None);
    }
    let ghost b0 = elems_view(b@);
    let ghost pv = elems_view(p@);
    let mut slot = Document::Null;
    b.set_and_swap(i, &mut slot);
    let (merged, err) = merge_doc(slot, &p[i]);
    let mut slot2 = merged;
    b.set_and_swap(i, &mut slot2);
    proof {
        let m = spec_merge(b0[i as int], pv[i as int]);
        assert(elems_view(b@) =~= b0.update(i as int, m.0));
    }
    match err {
        Some(er) => (b, Some(er)),
        None => merge_zip_entries(b, p, i + 1),
    }
}

/// Merges `patch` into the owned `base`, returning the patched document and,
/// on the first mismatch met in traversal order, the error beside it.
fn merge_doc(base: Document, patch: &Document) -> (r: (Document, Option<MergeError>))
    ensures
        ({
            let m = spec_merge(base@, patch@);
            r.0@ == m.0 && err_view(r.1) == m.1
        }),
    decreases patch, 0int,
{
    match base {
        Document::OrderedMap(b) => match patch {
            Document::OrderedMap(p) => {
                let m = merge_map_entries(b, p, 0);
                (Document::OrderedMap(m.0), m.1)
            },
            _ => {
                let b2 = Document::OrderedMap(b);
                let name = b2.shape();
                (b2, Some(MergeError::Mismatch(name, patch.deep_copy())))
            },
        },
        Document::IndexMap(b) => match patch {
            Document::IndexMap(p) => {
                let m = merge_idx_entries(b, p, 0);
                (Document::IndexMap(m.0), m.1)
            },
            _ => {
                let b2 = Document::IndexMap(b);
                let name = b2.shape();
                (b2, Some(MergeError::Mismatch(name, patch.deep_copy())))
            },
        },
        Document::TaggedIndexMap(b) => match patch {
            Document::TaggedIndexMap(p) => {
                let m = merge_tag_entries(b, p, 0);
                (Document::TaggedIndexMap(m.0), m.1)
            },
            _ => {
                let b2 = Document::TaggedIndexMap(b);
                let name = b2.shape();
                (b2, Some(MergeError::Mismatch(name, patch.deep_copy())))
            },
        },
        Document::Array(b) => match patch {
            Document::IndexMap(p) => {
                let m = merge_sparse_entries(b, p, 0);
                (Document::Array(m.0), m.1)
            },
            Document::Array(p) => {
                let m = merge_zip_entries(b, p, 0);
                (Document::Array(m.0), m.1)
            },
            _ => {
                let b2 = Document::Array(b);
                let name = b2.shape();
                (b2, Some(MergeError::Mismatch(name, patch.deep_copy())))
            },
        },
        _ => {
            if base.same_variant_as(patch) {
                (patch.deep_copy(), None)
            } else {
                let name = base.shape();
                (base, Some(MergeError::Mismatch(name, patch.deep_copy())))
            }
        },
    }
}

/// Applies `patch` to `base` in place. On an error, `base` keeps the
/// entries already patched before the failing node: there is no rollback,
/// so a caller that needs atomicity should merge into a disposable copy.
pub fn merge_byml_raw(base: &mut Document, patch: Document) -> (r: Result<(), MergeError>)
    ensures
        ({
            let m = spec_merge(old(base)@, patch@);
            &&& final(base)@ == m.0
            &&& match r {
                Ok(u) => m.1 is None,
                Err(e) => m.1 matches Some(ev) && e@ == ev,
            }
        }),
        old(base)@.wf() && patch@.wf() ==> final(base)@.wf(),
{
    let ghost b0 = base@;
    let mut work = Document::Null;
    core::mem::swap(base, &mut work);
    let (merged, err) = merge_doc(work, &patch);
    *base = merged;
    proof {
        if b0.wf() && patch@.wf() {
            crate::laws::lemma_merge_wf(b0, patch@);
        }
    }
    match err {
        None => Ok(()),
        Some(e) => Err(e),
    }
}

/// Applies `patch` to `base`, taking ownership of `base`, and returns the
/// merged document; on a mismatch the partially patched document is
/// discarded and only the error comes back.
pub fn merge_byml(base: Document, patch: Document) -> (r: Result<Document, MergeError>)
    ensures
        ({
            let m = spec_merge(base@, patch@);
            match r {
                Ok(d) => m.1 is None && d@ == m.0,
                Err(e) => m.1 matches Some(ev) && e@ == ev,
            }
        }),
        match r {
            Ok(d) => base@.wf() && patch@.wf() ==> d@.wf(),
            Err(e) => true,
        },
{
    proof {
        if base@.wf() && patch@.wf() {
            crate::laws::lemma_merge_wf(base@, patch@);
        }
    }
    let (merged, err) = merge_doc(base, &patch);
    match err {
        None => Ok(merged),
        Some(e) => Err(e),
    }
}

} // verus!
