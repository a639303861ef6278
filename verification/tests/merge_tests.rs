use rsdb_patcher::Document;
use rsdb_patcher::merge_byml;
use rsdb_patcher::merge_byml_raw;

fn s(text: &str) -> Document {
    Document::Str(String::from(text))
}

fn map(entries: Vec<(&str, Document)>) -> Document {
    Document::OrderedMap(entries.into_iter().map(|(k, v)| (String::from(k), v)).collect())
}

fn arr(elems: Vec<Document>) -> Document {
    Document::Array(elems)
}

fn idx(entries: Vec<(u32, Document)>) -> Document {
    Document::IndexMap(entries)
}

fn tag(entries: Vec<(u32, (Document, u32))>) -> Document {
    Document::TaggedIndexMap(entries)
}

#[test]
fn leaf_replacement_int() {
    let r = merge_byml(Document::I32(1), Document::I32(42)).unwrap();
    assert!(r.content_eq(&Document::I32(42)));
}

#[test]
fn leaf_replacement_string() {
    let r = merge_byml(s("foo"), s("bar")).unwrap();
    assert!(r.content_eq(&s("bar")));
}

#[test]
fn leaf_replacement_float_bits() {
    let old = Document::Float(1.5f32.to_bits());
    let new = Document::Float(2.25f32.to_bits());
    let r = merge_byml(old, Document::Float(2.25f32.to_bits())).unwrap();
    assert!(r.content_eq(&new));
}

#[test]
fn map_union_disjoint() {
    let base = map(vec![("a", Document::I32(1))]);
    let patch = map(vec![("b", Document::I32(2))]);
    let r = merge_byml(base, patch).unwrap();
    let want = map(vec![("a", Document::I32(1)), ("b", Document::I32(2))]);
    assert!(r.content_eq(&want));
}

#[test]
fn map_override_shared_key() {
    let base = map(vec![("a", Document::I32(1)), ("b", Document::I32(2))]);
    let patch = map(vec![("a", Document::I32(9))]);
    let r = merge_byml(base, patch).unwrap();
    let want = map(vec![("a", Document::I32(9)), ("b", Document::I32(2))]);
    assert!(r.content_eq(&want));
}

#[test]
fn idempotence_leaf_map_patch() {
    let base = map(vec![
        ("a", Document::I32(1)),
        ("b", map(vec![("c", Document::I32(2))])),
    ]);
    let patch = || {
        map(vec![
            ("a", Document::I32(5)),
            ("b", map(vec![("d", Document::I32(7))])),
            ("e", Document::I32(3)),
        ])
    };
    let once = merge_byml(base, patch()).unwrap();
    let again = merge_byml(once.deep_copy(), patch()).unwrap();
    assert!(once.content_eq(&again));
}

#[test]
fn mismatch_leaf_base_container_patch() {
    let e = merge_byml(Document::I32(1), map(vec![])).unwrap_err();
    assert_eq!(e.expected_shape().as_str(), "I32");
    assert!(e.offending_value().content_eq(&map(vec![])));
}

#[test]
fn mismatch_container_base_leaf_patch() {
    let e = merge_byml(map(vec![]), Document::I32(1)).unwrap_err();
    assert_eq!(e.expected_shape().as_str(), "OrderedMap");
    assert!(e.offending_value().content_eq(&Document::I32(1)));
}

#[test]
fn mismatch_binary_vs_file() {
    let e = merge_byml(Document::Binary(vec![1u8]), Document::File(vec![1u8])).unwrap_err();
    assert_eq!(e.expected_shape().as_str(), "Binary");
}

#[test]
fn sanctioned_array_index_map() {
    let base = arr(vec![Document::I32(10), Document::I32(20), Document::I32(30)]);
    let patch = idx(vec![(1, Document::I32(99))]);
    let r = merge_byml(base, patch).unwrap();
    let want = arr(vec![Document::I32(10), Document::I32(99), Document::I32(30)]);
    assert!(r.content_eq(&want));
}

#[test]
fn scenario_nested_index_map_patch() {
    let base = map(vec![
        ("a", Document::I32(1)),
        (
            "b",
            arr(vec![Document::I32(10), Document::I32(20), Document::I32(30)]),
        ),
    ]);
    let patch = map(vec![("b", idx(vec![(1, Document::I32(99))]))]);
    let r = merge_byml(base, patch).unwrap();
    let want = map(vec![
        ("a", Document::I32(1)),
        (
            "b",
            arr(vec![Document::I32(10), Document::I32(99), Document::I32(30)]),
        ),
    ]);
    assert!(r.content_eq(&want));
}

#[test]
fn scenario_string_vs_int_mismatch() {
    let base = map(vec![("x", s("foo"))]);
    let patch = map(vec![("x", Document::I32(5))]);
    let e = merge_byml(base, patch).unwrap_err();
    assert_eq!(e.expected_shape().as_str(), "String");
    assert!(e.offending_value().content_eq(&Document::I32(5)));
}

#[test]
fn scenario_long_patch_array_truncates() {
    let base = arr(vec![Document::I32(1), Document::I32(2)]);
    let patch = arr(vec![
        Document::I32(9),
        Document::I32(8),
        Document::I32(7),
        Document::I32(6),
        Document::I32(5),
    ]);
    let r = merge_byml(base, patch).unwrap();
    let want = arr(vec![Document::I32(9), Document::I32(8)]);
    assert!(r.content_eq(&want));
}

#[test]
fn scenario_short_patch_array_keeps_tail() {
    let base = arr(vec![
        Document::I32(1),
        Document::I32(2),
        Document::I32(3),
        Document::I32(4),
        Document::I32(5),
    ]);
    let patch = arr(vec![Document::I32(9), Document::I32(8)]);
    let r = merge_byml(base, patch).unwrap();
    let want = arr(vec![
        Document::I32(9),
        Document::I32(8),
        Document::I32(3),
        Document::I32(4),
        Document::I32(5),
    ]);
    assert!(r.content_eq(&want));
}

#[test]
fn tag_independence() {
    let base = tag(vec![(1, (Document::I32(1), 7)), (2, (Document::I32(2), 8))]);
    let patch = tag(vec![(1, (Document::I32(9), 100)), (3, (Document::I32(3), 50))]);
    let r = merge_byml(base, patch).unwrap();
    let want = tag(vec![
        (1, (Document::I32(9), 100)),
        (2, (Document::I32(2), 8)),
        (3, (Document::I32(3), 50)),
    ]);
    assert!(r.content_eq(&want));
}

#[test]
fn tag_kept_when_nested_merge_fails() {
    let mut base = tag(vec![(1, (map(vec![]), 7))]);
    let patch = tag(vec![(1, (Document::I32(5), 9))]);
    let e = merge_byml_raw(&mut base, patch).unwrap_err();
    assert_eq!(e.expected_shape().as_str(), "OrderedMap");
    let want = tag(vec![(1, (map(vec![]), 7))]);
    assert!(base.content_eq(&want));
}

#[test]
fn sparse_index_out_of_range() {
    let base = arr(vec![Document::I32(1)]);
    let patch = idx(vec![(5, Document::I32(9))]);
    let e = merge_byml(base, patch).unwrap_err();
    assert_eq!(e.expected_shape().as_str(), "Array");
    assert!(e.offending_value().content_eq(&Document::U32(5)));
}

#[test]
fn partial_mutation_without_rollback() {
    let mut base = map(vec![("a", Document::I32(1)), ("b", Document::I32(2))]);
    let patch = map(vec![("a", Document::I32(9)), ("b", map(vec![]))]);
    let e = merge_byml_raw(&mut base, patch).unwrap_err();
    assert_eq!(e.expected_shape().as_str(), "I32");
    let want = map(vec![("a", Document::I32(9)), ("b", Document::I32(2))]);
    assert!(base.content_eq(&want));
}

#[test]
fn index_map_recurse_or_insert() {
    let base = idx(vec![(1, Document::I32(1))]);
    let patch = idx(vec![(1, Document::I32(5)), (2, Document::I32(7))]);
    let r = merge_byml(base, patch).unwrap();
    let want = idx(vec![(1, Document::I32(5)), (2, Document::I32(7))]);
    assert!(r.content_eq(&want));
}

#[test]
fn empty_patch_map_changes_nothing() {
    let base = map(vec![("a", Document::I32(1))]);
    let r = merge_byml(base, map(vec![])).unwrap();
    assert!(r.content_eq(&map(vec![("a", Document::I32(1))])));
}

#[test]
fn empty_base_map_takes_patch() {
    let patch = map(vec![("a", Document::I32(1))]);
    let r = merge_byml(map(vec![]), patch).unwrap();
    assert!(r.content_eq(&map(vec![("a", Document::I32(1))])));
}

#[test]
fn empty_arrays_merge() {
    let r = merge_byml(arr(vec![]), arr(vec![])).unwrap();
    assert!(r.content_eq(&arr(vec![])));
}

#[test]
fn nested_arrays_zip() {
    let base = arr(vec![
        arr(vec![Document::I32(1), Document::I32(2)]),
        arr(vec![Document::I32(3)]),
    ]);
    let patch = arr(vec![arr(vec![Document::I32(9)])]);
    let r = merge_byml(base, patch).unwrap();
    let want = arr(vec![
        arr(vec![Document::I32(9), Document::I32(2)]),
        arr(vec![Document::I32(3)]),
    ]);
    assert!(r.content_eq(&want));
}

#[test]
fn zip_error_reports_leaf_shape() {
    let base = arr(vec![Document::I32(1)]);
    let patch = arr(vec![s("x")]);
    let e = merge_byml(base, patch).unwrap_err();
    assert_eq!(e.expected_shape().as_str(), "I32");
}

#[test]
fn deep_copy_matches_original() {
    let doc = map(vec![
        ("a", arr(vec![Document::Bool(true), Document::Null])),
        ("b", tag(vec![(4, (Document::U64(9), 3))])),
        ("c", Document::Binary(vec![1, 2, 3])),
    ]);
    let copy = doc.deep_copy();
    assert!(copy.content_eq(&doc));
}

#[test]
fn content_eq_detects_difference() {
    let a = map(vec![("a", Document::I32(1))]);
    let b = map(vec![("a", Document::I32(2))]);
    assert!(!a.content_eq(&b));
    assert!(!a.content_eq(&arr(vec![])));
}

#[test]
fn in_place_and_owning_merges_agree() {
    let base1 = map(vec![("a", Document::I32(1)), ("b", Document::I32(2))]);
    let base2 = base1.deep_copy();
    let patch1 = map(vec![("b", Document::I32(5)), ("c", Document::I32(6))]);
    let patch2 = patch1.deep_copy();
    let owned = merge_byml(base1, patch1).unwrap();
    let mut in_place = base2;
    merge_byml_raw(&mut in_place, patch2).unwrap();
    assert!(owned.content_eq(&in_place));
}

#[test]
fn null_replaces_null() {
    let r = merge_byml(Document::Null, Document::Null).unwrap();
    assert!(r.content_eq(&Document::Null));
}

#[test]
fn tagged_value_merges_recursively() {
    let base = tag(vec![(1, (map(vec![("a", Document::I32(1))]), 7))]);
    let patch = tag(vec![(1, (map(vec![("b", Document::I32(2))]), 9))]);
    let r = merge_byml(base, patch).unwrap();
    let want = tag(vec![(
        1,
        (map(vec![("a", Document::I32(1)), ("b", Document::I32(2))]), 9),
    )]);
    assert!(r.content_eq(&want));
}

#[test]
fn first_mismatch_in_patch_order_wins() {
    let base = map(vec![("a", Document::I32(1)), ("b", Document::I32(2))]);
    let patch = map(vec![("b", s("x")), ("a", s("y"))]);
    let e = merge_byml(base, patch).unwrap_err();
    assert_eq!(e.expected_shape().as_str(), "I32");
    assert!(e.offending_value().content_eq(&s("x")));
}

#[test]
fn three_levels_of_nesting() {
    let base = map(vec![(
        "top",
        map(vec![("mid", map(vec![("leaf", Document::I32(1))]))]),
    )]);
    let patch = map(vec![(
        "top",
        map(vec![("mid", map(vec![("leaf", Document::I32(2)), ("new", Document::I32(3))]))]),
    )]);
    let r = merge_byml(base, patch).unwrap();
    let want = map(vec![(
        "top",
        map(vec![("mid", map(vec![("leaf", Document::I32(2)), ("new", Document::I32(3))]))]),
    )]);
    assert!(r.content_eq(&want));
}

#[test]
fn shape_names_cover_variants() {
    assert_eq!(Document::Null.shape().as_str(), "Null");
    assert_eq!(Document::Bool(true).shape().as_str(), "Bool");
    assert_eq!(Document::U32(1).shape().as_str(), "U32");
    assert_eq!(Document::I64(1).shape().as_str(), "I64");
    assert_eq!(Document::U64(1).shape().as_str(), "U64");
    assert_eq!(Document::Double(1.0f64.to_bits()).shape().as_str(), "Double");
    assert_eq!(Document::File(vec![]).shape().as_str(), "File");
    assert_eq!(idx(vec![]).shape().as_str(), "IndexMap");
    assert_eq!(tag(vec![]).shape().as_str(), "TaggedIndexMap");
}
