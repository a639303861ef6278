//! A structural patch-merge engine for tree-shaped, semi-structured
//! documents: scalars, ordered arrays, and three flavors of key-indexed
//! mapping. `merge_byml_raw` folds a patch document into a base document in
//! place, recursively; `merge_byml` does the same on an owned base. Every
//! node the patch holds overrides or extends the corresponding base node,
//! and a shape mismatch is reported as a `MergeError` at the first
//! incompatible node met in traversal order. The function `spec_merge` is
//! the mathematical statement of the whole policy, and the `lemma_` proof
//! functions state the engine's laws over it.

mod document;
mod laws;
mod merge;

pub use laws::leaf_map_patch;
pub use laws::lemma_leaf_replacement;
pub use laws::lemma_map_union_override;
pub use laws::lemma_map_union_values;
pub use laws::lemma_merge_idempotent;
pub use laws::lemma_tag_independence;
pub use laws::lemma_tag_kept_on_nested_error;
pub use laws::lemma_type_mismatch;

pub use laws::lemma_find_index_is;
pub use laws::lemma_merge_wf;

pub use merge::MergeError;
pub use merge::MergeErrorView;
pub use merge::err_view;
pub use merge::find_index;
pub use merge::find_index_from;
pub use merge::lemma_find_index_from;
pub use merge::merge_byml;
pub use merge::merge_byml_raw;
pub use merge::mismatch_err;
pub use merge::spec_merge;
pub use merge::spec_merge_idx;
pub use merge::spec_merge_map;
pub use merge::spec_merge_sparse;
pub use merge::spec_merge_tagged;
pub use merge::spec_merge_zip;

pub use document::DocView;
pub use document::Document;
pub use document::elems_view;
pub use document::idx_entries_view;
pub use document::str_entries_view;
pub use document::tag_entries_view;
