use vstd::prelude::*;

verus! {

/// One node of the tree-shaped document model: a scalar leaf, an ordered
/// array, or one of three key-indexed containers.
///
/// Floating-point scalars are carried as their raw bit patterns (`Float` for
/// 32 bits, `Double` for 64); the merge never reads a scalar's content, only
/// its variant, so the bits travel through untouched.
///
/// `OrderedMap` and `IndexMap` entries keep insertion order; a
/// `TaggedIndexMap` entry pairs each value with a 32-bit tag word that is
/// replaced wholesale on merge, never merged itself.
#[derive(Debug)]
pub enum Document {
    Null,
    Bool(bool),
    I32(i32),
    U32(u32),
    I64(i64),
    U64(u64),
    Float(u32),
    Double(u64),
    Str(String),
    Binary(Vec<u8>),
    File(Vec<u8>),
    Array(Vec<Document>),
    OrderedMap(Vec<(String, Document)>),
    IndexMap(Vec<(u32, Document)>),
    TaggedIndexMap(Vec<(u32, (Document, u32))>),
}

/// The mathematical shape of a `Document`: the same tree with `String`
/// replaced by `Seq<char>` and `Vec` replaced by `Seq`. All contracts in
/// this crate speak of documents through this view.
#[verifier::ext_equal]
pub enum DocView {
    Null,
    Bool(bool),
    I32(i32),
    U32(u32),
    I64(i64),
    U64(u64),
    Float(u32),
    Double(u64),
    Str(Seq<char>),
    Binary(Seq<u8>),
    File(Seq<u8>),
    Array(Seq<DocView>),
    OrderedMap(Seq<(Seq<char>, DocView)>),
    IndexMap(Seq<(u32, DocView)>),
    TaggedIndexMap(Seq<(u32, (DocView, u32))>),
}

/// View of a sequence of array elements.
pub open spec fn elems_view(s: Seq<Document>) -> Seq<DocView>
    decreases s,
{
    Seq::new(
        s.len(),
        |i: int|
            if 0 <= i < s.len() {
                s[i].to_view()
            } else {
                DocView::Null
            },
    )
}

/// View of a sequence of string-keyed entries.
pub open spec fn str_entries_view(s: Seq<(String, Document)>) -> Seq<(Seq<char>, DocView)>
    decreases s,
{
    Seq::new(
        s.len(),
        |i: int|
            if 0 <= i < s.len() {
                (s[i].0@, s[i].1.to_view())
            } else {
                (Seq::<char>::empty(), DocView::Null)
            },
    )
}

/// View of a sequence of integer-keyed entries.
pub open spec fn idx_entries_view(s: Seq<(u32, Document)>) -> Seq<(u32, DocView)>
    decreases s,
{
    Seq::new(
        s.len(),
        |i: int|
            if 0 <= i < s.len() {
                (s[i].0, s[i].1.to_view())
            } else {
                (0u32, DocView::Null)
            },
    )
}

/// View of a sequence of integer-keyed, tagged entries.
pub open spec fn tag_entries_view(s: Seq<(u32, (Document, u32))>) -> Seq<(u32, (DocView, u32))>
    decreases s,
{
    Seq::new(
        s.len(),
        |i: int|
            if 0 <= i < s.len() {
                (s[i].0, (s[i].1.0.to_view(), s[i].1.1))
            } else {
                (0u32, (DocView::Null, 0u32))
            },
    )
}

impl Document {
    /// The mathematical value of this node.
    pub open spec fn to_view(self) -> DocView
        decreases self,
    {
        match self {
            Document::Null => DocView::Null,
            Document::Bool(b) => DocView::Bool(b),
            Document::I32(n) => DocView::I32(n),
            Document::U32(n) => DocView::U32(n),
            Document::I64(n) => DocView::I64(n),
            Document::U64(n) => DocView::U64(n),
            Document::Float(bits) => DocView::Float(bits),
            Document::Double(bits) => DocView::Double(bits),
            Document::Str(s) => DocView::Str(s@),
            Document::Binary(b) => DocView::Binary(b@),
            Document::File(b) => DocView::File(b@),
            Document::Array(v) => DocView::Array(elems_view(v@)),
            Document::OrderedMap(v) => DocView::OrderedMap(str_entries_view(v@)),
            Document::IndexMap(v) => DocView::IndexMap(idx_entries_view(v@)),
            Document::TaggedIndexMap(v) => DocView::TaggedIndexMap(tag_entries_view(v@)),
        }
    }
}

impl View for Document {
    type V = DocView;

    open spec fn view(&self) -> DocView {
        self.to_view()
    }
}

/// Compares two byte buffers element by element.
fn bytes_eq(a: &Vec<u8>, b: &Vec<u8>) -> (r: bool)
    ensures
        r == (a@ == b@),
{
    if a.len() != b.len() {
        return false;
    }
    let mut i: usize = 0;
    while i < a.len()
        invariant
            i <= a@.len(),
            a@.len() == b@.len(),
            forall|j: int| 0 <= j < i ==> a@[j] == b@[j],
        decreases a@.len() - i,
    {
        if a[i] != b[i] {
            return false;
        }
        i = i + 1;
    }
    assert(a@ =~= b@);
    true
}

/// Copies a byte buffer element by element.
fn copy_bytes(v: &Vec<u8>) -> (r: Vec<u8>)
    ensures
        r@ == v@,
{
    let mut out: Vec<u8> = Vec::new();
    let mut i: usize = 0;
    while i < v.len()
        invariant
            i <= v@.len(),
            out@ == v@.subrange(0, i as int),
        decreases v@.len() - i,
    {
        out.push(v[i]);
        assert(out@ =~= v@.subrange(0, i + 1));
        i = i + 1;
    }
    assert(out@ =~= v@);
    out
}

impl Document {
    /// Builds a fresh document with the same mathematical value as this one.
    #[verifier::loop_isolation(false)]
    pub fn deep_copy(&self) -> (r: Document)
        ensures
            r@ == self@,
        decreases self,
    {
        match self {
            Document::Null => Document::Null,
            Document::Bool(b) => Document::Bool(*b),
            Document::I32(n) => Document::I32(*n),
            Document::U32(n) => Document::U32(*n),
            Document::I64(n) => Document::I64(*n),
            Document::U64(n) => Document::U64(*n),
            Document::Float(bits) => Document::Float(*bits),
            Document::Double(bits) => Document::Double(*bits),
            Document::Str(s) => Document::Str(s.clone()),
            Document::Binary(b) => Document::Binary(copy_bytes(b)),
            Document::File(b) => Document::File(copy_bytes(b)),
            Document::Array(v) => {
                let mut out: Vec<Document> = Vec::new();
                let mut i: usize = 0;
                while i < v.len()
                    invariant
                        i <= v@.len(),
                        out@.len() == i,
                        forall|j: int| 0 <= j < i ==> out@[j]@ == v@[j]@,
                    decreases v@.len() - i,
                {
                    let c = (&v[i]).deep_copy();
                    out.push(c);
                    i = i + 1;
                }
                assert(elems_view(out@) =~= elems_view(v@));
                Document::Array(out)
            },
            Document::OrderedMap(v) => {
                let mut out: Vec<(String, Document)> = Vec::new();
                let mut i: usize = 0;
                while i < v.len()
                    invariant
                        i <= v@.len(),
                        out@.len() == i,
                        forall|j: int|
                            0 <= j < i ==> out@[j].0@ == v@[j].0@ && out@[j].1@ == v@[j].1@,
                    decreases v@.len() - i,
                {
                    let e = &v[i];
                    let k = e.0.clone();
                    let c = (&e.1).deep_copy();
                    out.push((k, c));
                    i = i + 1;
                }
                assert(str_entries_view(out@) =~= str_entries_view(v@));
                Document::OrderedMap(out)
            },
            Document::IndexMap(v) => {
                let mut out: Vec<(u32, Document)> = Vec::new();
                let mut i: usize = 0;
                while i < v.len()
                    invariant
                        i <= v@.len(),
                        out@.len() == i,
                        forall|j: int|
                            0 <= j < i ==> out@[j].0 == v@[j].0 && out@[j].1@ == v@[j].1@,
                    decreases v@.len() - i,
                {
                    let e = &v[i];
                    let c = (&e.1).deep_copy();
                    out.push((e.0, c));
                    i = i + 1;
                }
                assert(idx_entries_view(out@) =~= idx_entries_view(v@));
                Document::IndexMap(out)
            },
            Document::TaggedIndexMap(v) => {
                let mut out: Vec<(u32, (Document, u32))> = Vec::new();
                let mut i: usize = 0;
                while i < v.len()
                    invariant
                        i <= v@.len(),
                        out@.len() == i,
                        forall|j: int|
                            0 <= j < i ==> out@[j].0 == v@[j].0 && out@[j].1.0@ == v@[j].1.0@
                                && out@[j].1.1 == v@[j].1.1,
                    decreases v@.len() - i,
                {
                    let e = &v[i];
                    let c = (&e.1.0).deep_copy();
                    out.push((e.0, (c, e.1.1)));
                    i = i + 1;
                }
                assert(tag_entries_view(out@) =~= tag_entries_view(v@));
                Document::TaggedIndexMap(out)
            },
        }
    }

    /// Whether this document and `other` have the same mathematical value.
    #[verifier::loop_isolation(false)]
    pub fn content_eq(&self, other: &Document) -> (r: bool)
        ensures
            r == (self@ == other@),
        decreases self,
    {
        match (self, other) {
            (Document::Null, Document::Null) => true,
            (Document::Bool(a), Document::Bool(b)) => a == b,
            (Document::I32(a), Document::I32(b)) => a == b,
            (Document::U32(a), Document::U32(b)) => a == b,
            (Document::I64(a), Document::I64(b)) => a == b,
            (Document::U64(a), Document::U64(b)) => a == b,
            (Document::Float(a), Document::Float(b)) => a == b,
            (Document::Double(a), Document::Double(b)) => a == b,
            (Document::Str(a), Document::Str(b)) => *a == *b,
            (Document::Binary(a), Document::Binary(b)) => bytes_eq(a, b),
            (Document::File(a), Document::File(b)) => bytes_eq(a, b),
            (Document::Array(a), Document::Array(b)) => {
                if a.len() != b.len() {
                    assert(elems_view(a@).len() != elems_view(b@).len());
                    return false;
                }
                let mut i: usize = 0;
                while i < a.len()
                    invariant
                        i <= a@.len(),
                        forall|j: int| 0 <= j < i ==> elems_view(a@)[j] == elems_view(b@)[j],
                    decreases a@.len() - i,
                {
                    if !(&a[i]).content_eq(&b[i]) {
                        assert(elems_view(a@)[i as int] != elems_view(b@)[i as int]);
                        return false;
                    }
                    i = i + 1;
                }
                assert(elems_view(a@) =~= elems_view(b@));
                true
            },
            (Document::OrderedMap(a), Document::OrderedMap(b)) => {
                if a.len() != b.len() {
                    assert(str_entries_view(a@).len() != str_entries_view(b@).len());
                    return false;
                }
                let mut i: usize = 0;
                while i < a.len()
                    invariant
                        i <= a@.len(),
                        forall|j: int|
                            0 <= j < i ==> str_entries_view(a@)[j] == str_entries_view(b@)[j],
                    decreases a@.len() - i,
                {
                    let ea = &a[i];
                    let eb = &b[i];
                    if !(ea.0 == eb.0) || !(&ea.1).content_eq(&eb.1) {
                        assert(str_entries_view(a@)[i as int] != str_entries_view(b@)[i as int]);
                        return false;
                    }
                    i = i + 1;
                }
                assert(str_entries_view(a@) =~= str_entries_view(b@));
                true
            },
            (Document::IndexMap(a), Document::IndexMap(b)) => {
                if a.len() != b.len() {
                    assert(idx_entries_view(a@).len() != idx_entries_view(b@).len());
                    return false;
                }
                let mut i: usize = 0;
                while i < a.len()
                    invariant
                        i <= a@.len(),
                        forall|j: int|
                            0 <= j < i ==> idx_entries_view(a@)[j] == idx_entries_view(b@)[j],
                    decreases a@.len() - i,
                {
                    let ea = &a[i];
                    let eb = &b[i];
                    if ea.0 != eb.0 || !(&ea.1).content_eq(&eb.1) {
                        assert(idx_entries_view(a@)[i as int] != idx_entries_view(b@)[i as int]);
                        return false;
                    }
                    i = i + 1;
                }
                assert(idx_entries_view(a@) =~= idx_entries_view(b@));
                true
            },
            (Document::TaggedIndexMap(a), Document::TaggedIndexMap(b)) => {
                if a.len() != b.len() {
                    assert(tag_entries_view(a@).len() != tag_entries_view(b@).len());
                    return false;
                }
                let mut i: usize = 0;
                while i < a.len()
                    invariant
                        i <= a@.len(),
                        forall|j: int|
                            0 <= j < i ==> tag_entries_view(a@)[j] == tag_entries_view(b@)[j],
                    decreases a@.len() - i,
                {
                    let ea = &a[i];
                    let eb = &b[i];
                    if ea.0 != eb.0 || ea.1.1 != eb.1.1 || !(&ea.1.0).content_eq(&eb.1.0) {
                        assert(tag_entries_view(a@)[i as int] != tag_entries_view(b@)[i as int]);
                        return false;
                    }
                    i = i + 1;
                }
                assert(tag_entries_view(a@) =~= tag_entries_view(b@));
                true
            },
            _ => {
                proof {
                    if self@ == other@ {
                        assert(self@.same_variant(other@));
                        assert(false);
                    }
                }
                false
            },
        }
    }

    /// The name of this node's shape, as carried in mismatch errors.
    pub fn shape(&self) -> (r: String)
        ensures
            r@ == self@.shape_name(),
    {
        match self {
            Document::Null => String::from_str("Null"),
            Document::Bool(_) => String::from_str("Bool"),
            Document::I32(_) => String::from_str("I32"),
            Document::U32(_) => String::from_str("U32"),
            Document::I64(_) => String::from_str("I64"),
            Document::U64(_) => String::from_str("U64"),
            Document::Float(_) => String::from_str("Float"),
            Document::Double(_) => String::from_str("Double"),
            Document::Str(_) => String::from_str("String"),
            Document::Binary(_) => String::from_str("Binary"),
            Document::File(_) => String::from_str("File"),
            Document::Array(_) => String::from_str("Array"),
            Document::OrderedMap(_) => String::from_str("OrderedMap"),
            Document::IndexMap(_) => String::from_str("IndexMap"),
            Document::TaggedIndexMap(_) => String::from_str("TaggedIndexMap"),
        }
    }

    /// Whether this node and `other` are the same variant, content aside.
    pub fn same_variant_as(&self, other: &Document) -> (r: bool)
        ensures
            r == self@.same_variant(other@),
    {
        match (self, other) {
            (Document::Null, Document::Null) => true,
            (Document::Bool(_), Document::Bool(_)) => true,
            (Document::I32(_), Document::I32(_)) => true,
            (Document::U32(_), Document::U32(_)) => true,
            (Document::I64(_), Document::I64(_)) => true,
            (Document::U64(_), Document::U64(_)) => true,
            (Document::Float(_), Document::Float(_)) => true,
            (Document::Double(_), Document::Double(_)) => true,
            (Document::Str(_), Document::Str(_)) => true,
            (Document::Binary(_), Document::Binary(_)) => true,
            (Document::File(_), Document::File(_)) => true,
            (Document::Array(_), Document::Array(_)) => true,
            (Document::OrderedMap(_), Document::OrderedMap(_)) => true,
            (Document::IndexMap(_), Document::IndexMap(_)) => true,
            (Document::TaggedIndexMap(_), Document::TaggedIndexMap(_)) => true,
            _ => false,
        }
    }
}

impl DocView {
    /// A leaf is any node that is not one of the four container shapes.
    pub open spec fn is_leaf(self) -> bool {
        match self {
            DocView::Array(_) => false,
            DocView::OrderedMap(_) => false,
            DocView::IndexMap(_) => false,
            DocView::TaggedIndexMap(_) => false,
            _ => true,
        }
    }

    /// Whether two nodes are the same variant of the model, content aside.
    pub open spec fn same_variant(self, other: DocView) -> bool {
        match (self, other) {
            (DocView::Null, DocView::Null) => true,
            (DocView::Bool(_), DocView::Bool(_)) => true,
            (DocView::I32(_), DocView::I32(_)) => true,
            (DocView::U32(_), DocView::U32(_)) => true,
            (DocView::I64(_), DocView::I64(_)) => true,
            (DocView::U64(_), DocView::U64(_)) => true,
            (DocView::Float(_), DocView::Float(_)) => true,
            (DocView::Double(_), DocView::Double(_)) => true,
            (DocView::Str(_), DocView::Str(_)) => true,
            (DocView::Binary(_), DocView::Binary(_)) => true,
            (DocView::File(_), DocView::File(_)) => true,
            (DocView::Array(_), DocView::Array(_)) => true,
            (DocView::OrderedMap(_), DocView::OrderedMap(_)) => true,
            (DocView::IndexMap(_), DocView::IndexMap(_)) => true,
            (DocView::TaggedIndexMap(_), DocView::TaggedIndexMap(_)) => true,
            _ => false,
        }
    }

    /// The name of this node's shape, as reported in mismatch errors.
    pub open spec fn shape_name(self) -> Seq<char> {
        match self {
            DocView::Null => "Null"@,
            DocView::Bool(_) => "Bool"@,
            DocView::I32(_) => "I32"@,
            DocView::U32(_) => "U32"@,
            DocView::I64(_) => "I64"@,
            DocView::U64(_) => "U64"@,
            DocView::Float(_) => "Float"@,
            DocView::Double(_) => "Double"@,
            DocView::Str(_) => "String"@,
            DocView::Binary(_) => "Binary"@,
            DocView::File(_) => "File"@,
            DocView::Array(_) => "Array"@,
            DocView::OrderedMap(_) => "OrderedMap"@,
            DocView::IndexMap(_) => "IndexMap"@,
            DocView::TaggedIndexMap(_) => "TaggedIndexMap"@,
        }
    }

    /// Well-formedness: within every map container, keys are unique, and
    /// every child is itself well-formed.
    pub open spec fn wf(self) -> bool
        decreases self,
    {
        match self {
            DocView::Array(s) => forall|i: int| 0 <= i < s.len() ==> (#[trigger] s[i]).wf(),
            DocView::OrderedMap(s) => {
                &&& forall|i: int, j: int|
                    0 <= i < j < s.len() ==> (#[trigger] s[i]).0 != (#[trigger] s[j]).0
                &&& forall|i: int| 0 <= i < s.len() ==> (#[trigger] s[i]).1.wf()
            },
            DocView::IndexMap(s) => {
                &&& forall|i: int, j: int|
                    0 <= i < j < s.len() ==> (#[trigger] s[i]).0 != (#[trigger] s[j]).0
                &&& forall|i: int| 0 <= i < s.len() ==> (#[trigger] s[i]).1.wf()
            },
            DocView::TaggedIndexMap(s) => {
                &&& forall|i: int, j: int|
                    0 <= i < j < s.len() ==> (#[trigger] s[i]).0 != (#[trigger] s[j]).0
                &&& forall|i: int| 0 <= i < s.len() ==> (#[trigger] s[i]).1.0.wf()
            },
            _ => true,
        }
    }
}

} // verus!
