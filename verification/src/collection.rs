//! The schema of a collection.

use crate::ir::Distance;
use crate::text;
use vstd::prelude::*;
use vstd::string::*;

verus! {

/// What a field holds.
#[derive(Debug)]
pub enum FieldKind {
    Text { analyzer: String, positions: bool },
    Keyword,
    I64,
    F64,
    Bool,
    Date,
    Uuid,
    Json,
}

/// What a field kind is.
pub enum FieldKindV {
    Text { analyzer: Seq<char>, positions: bool },
    Keyword,
    I64,
    F64,
    Bool,
    Date,
    Uuid,
    Json,
}

impl View for FieldKind {
    type V = FieldKindV;

    open spec fn view(&self) -> FieldKindV {
        match self {
            FieldKind::Text { analyzer, positions } => FieldKindV::Text {
                analyzer: analyzer@,
                positions: *positions,
            },
            FieldKind::Keyword => FieldKindV::Keyword,
            FieldKind::I64 => FieldKindV::I64,
            FieldKind::F64 => FieldKindV::F64,
            FieldKind::Bool => FieldKindV::Bool,
            FieldKind::Date => FieldKindV::Date,
            FieldKind::Uuid => FieldKindV::Uuid,
            FieldKind::Json => FieldKindV::Json,
        }
    }
}

impl FieldKind {
    /// A copy of the kind.
    pub fn copy(&self) -> (r: FieldKind)
        ensures
            r@ == self@,
    {
        match self {
            FieldKind::Text { analyzer, positions } => FieldKind::Text {
                analyzer: analyzer.clone(),
                positions: *positions,
            },
            FieldKind::Keyword => FieldKind::Keyword,
            FieldKind::I64 => FieldKind::I64,
            FieldKind::F64 => FieldKind::F64,
            FieldKind::Bool => FieldKind::Bool,
            FieldKind::Date => FieldKind::Date,
            FieldKind::Uuid => FieldKind::Uuid,
            FieldKind::Json => FieldKind::Json,
        }
    }

    /// Whether two kinds are the same.
    pub fn same(&self, other: &FieldKind) -> (r: bool)
        ensures
            r == (self@ == other@),
    {
        match (self, other) {
            (
                FieldKind::Text { analyzer: a, positions: p },
                FieldKind::Text { analyzer: b, positions: q },
            ) => text::same(a.as_str(), b.as_str()) && *p == *q,
            (FieldKind::Keyword, FieldKind::Keyword) => true,
            (FieldKind::I64, FieldKind::I64) => true,
            (FieldKind::F64, FieldKind::F64) => true,
            (FieldKind::Bool, FieldKind::Bool) => true,
            (FieldKind::Date, FieldKind::Date) => true,
            (FieldKind::Uuid, FieldKind::Uuid) => true,
            (FieldKind::Json, FieldKind::Json) => true,
            _ => false,
        }
    }
}

/// A field of a collection.
#[derive(Debug)]
pub struct FieldSpec {
    pub name: String,
    pub source_path: String,
    pub kind: FieldKind,
    pub indexed: bool,
    pub fast: bool,
    pub ignore_malformed: bool,
}

/// What a field is.
pub struct FieldSpecV {
    pub name: Seq<char>,
    pub source_path: Seq<char>,
    pub kind: FieldKindV,
    pub indexed: bool,
    pub fast: bool,
    pub ignore_malformed: bool,
}

impl View for FieldSpec {
    type V = FieldSpecV;

    open spec fn view(&self) -> FieldSpecV {
        FieldSpecV {
            name: self.name@,
            source_path: self.source_path@,
            kind: self.kind@,
            indexed: self.indexed,
            fast: self.fast,
            ignore_malformed: self.ignore_malformed,
        }
    }
}

impl FieldSpec {
    /// A copy of the field.
    pub fn copy(&self) -> (r: FieldSpec)
        ensures
            r@ == self@,
    {
        FieldSpec {
            name: self.name.clone(),
            source_path: self.source_path.clone(),
            kind: self.kind.copy(),
            indexed: self.indexed,
            fast: self.fast,
            ignore_malformed: self.ignore_malformed,
        }
    }

    /// Whether two fields are the same.
    pub fn same(&self, other: &FieldSpec) -> (r: bool)
        ensures
            r == (self@ == other@),
    {
        text::same(self.name.as_str(), other.name.as_str()) && text::same(
            self.source_path.as_str(),
            other.source_path.as_str(),
        ) && self.kind.same(&other.kind) && self.indexed == other.indexed && self.fast
            == other.fast && self.ignore_malformed == other.ignore_malformed
    }
}

/// The element type of a dense vector.
#[derive(Clone, Copy, Debug, PartialEq, Eq, Structural)]
pub enum VectorElement {
    F32,
}

/// How a dense vector is indexed.
#[derive(Clone, Copy, Debug, PartialEq, Eq)]
pub enum VectorIndexSpec {
    Auto,
    Unindexed,
    IvfPq { num_partitions: Option<u32>, num_sub_vectors: Option<u32>, num_bits: u8 },
    IvfRq { num_partitions: Option<u32>, num_bits: u8 },
    IvfHnswSq { num_partitions: Option<u32> },
}

impl VectorIndexSpec {
    /// Whether two indexes are the same.
    pub fn same(&self, other: &VectorIndexSpec) -> (r: bool)
        ensures
            r == (*self == *other),
    {
        match (*self, *other) {
            (VectorIndexSpec::Auto, VectorIndexSpec::Auto) => true,
            (VectorIndexSpec::Unindexed, VectorIndexSpec::Unindexed) => true,
            (
                VectorIndexSpec::IvfPq { num_partitions: a, num_sub_vectors: b, num_bits: c },
                VectorIndexSpec::IvfPq { num_partitions: x, num_sub_vectors: y, num_bits: z },
            ) => a == x && b == y && c == z,
            (
                VectorIndexSpec::IvfRq { num_partitions: a, num_bits: c },
                VectorIndexSpec::IvfRq { num_partitions: x, num_bits: z },
            ) => a == x && c == z,
            (
                VectorIndexSpec::IvfHnswSq { num_partitions: a },
                VectorIndexSpec::IvfHnswSq { num_partitions: x },
            ) => a == x,
            _ => false,
        }
    }
}

/// The graph of a hot vector index.
#[derive(Clone, Copy, Debug, PartialEq, Eq)]
pub struct HnswParams {
    pub m: u32,
    pub ef_construct: u32,
    pub full_scan_threshold_kb: u32,
    pub payload_m: Option<u32>,
    pub on_disk: bool,
}

impl HnswParams {
    /// Whether two graphs are the same.
    pub fn same(&self, other: &HnswParams) -> (r: bool)
        ensures
            r == (*self == *other),
    {
        self.m == other.m && self.ef_construct == other.ef_construct && self.full_scan_threshold_kb
            == other.full_scan_threshold_kb && self.payload_m == other.payload_m && self.on_disk
            == other.on_disk
    }
}

/// How a dense vector is compressed.
#[derive(Clone, Copy, Debug, PartialEq, Eq)]
pub enum Quantization {
    Scalar { quantile_ppm: Option<u32>, always_ram: bool },
    Product { compression_ratio: u32, always_ram: bool },
    Binary { always_ram: bool },
}

impl Quantization {
    /// Whether two compressions are the same.
    pub fn same(&self, other: &Quantization) -> (r: bool)
        ensures
            r == (*self == *other),
    {
        match (*self, *other) {
            (
                Quantization::Scalar { quantile_ppm: a, always_ram: b },
                Quantization::Scalar { quantile_ppm: x, always_ram: y },
            ) => a == x && b == y,
            (
                Quantization::Product { compression_ratio: a, always_ram: b },
                Quantization::Product { compression_ratio: x, always_ram: y },
            ) => a == x && b == y,
            (Quantization::Binary { always_ram: b }, Quantization::Binary { always_ram: y }) => b
                == y,
            _ => false,
        }
    }
}

/// Whether two compressions that may be missing are the same.
fn same_quantization(a: &Option<Quantization>, b: &Option<Quantization>) -> (r: bool)
    ensures
        r == (*a == *b),
{
    match (a, b) {
        (Some(x), Some(y)) => x.same(y),
        (None, None) => true,
        _ => false,
    }
}

/// A dense vector of a collection.
#[derive(Debug)]
pub struct VectorSpec {
    pub name: String,
    pub dim: u32,
    pub distance: Distance,
    pub element: VectorElement,
    pub index: VectorIndexSpec,
    pub hnsw: HnswParams,
    pub quantization: Option<Quantization>,
}

/// What a dense vector is.
pub struct VectorSpecV {
    pub name: Seq<char>,
    pub dim: u32,
    pub distance: Distance,
    pub element: VectorElement,
    pub index: VectorIndexSpec,
    pub hnsw: HnswParams,
    pub quantization: Option<Quantization>,
}

impl View for VectorSpec {
    type V = VectorSpecV;

    open spec fn view(&self) -> VectorSpecV {
        VectorSpecV {
            name: self.name@,
            dim: self.dim,
            distance: self.distance,
            element: self.element,
            index: self.index,
            hnsw: self.hnsw,
            quantization: self.quantization,
        }
    }
}

impl VectorSpec {
    /// A copy of the vector.
    pub fn copy(&self) -> (r: VectorSpec)
        ensures
            r@ == self@,
    {
        VectorSpec {
            name: self.name.clone(),
            dim: self.dim,
            distance: self.distance,
            element: self.element,
            index: self.index,
            hnsw: self.hnsw,
            quantization: self.quantization,
        }
    }

    /// Whether two vectors are the same.
    pub fn same(&self, other: &VectorSpec) -> (r: bool)
        ensures
            r == (self@ == other@),
    {
        text::same(self.name.as_str(), other.name.as_str()) && self.dim == other.dim
            && self.distance == other.distance && self.element == other.element
            && self.index.same(&other.index) && self.hnsw.same(&other.hnsw) && same_quantization(
            &self.quantization,
            &other.quantization,
        )
    }
}

/// How the weights of a sparse vector are modified.
#[derive(Clone, Copy, Debug, PartialEq, Eq, Structural)]
pub enum SparseModifier {
    Plain,
    Idf,
}

/// A sparse vector of a collection.
#[derive(Debug)]
pub struct SparseVectorSpec {
    pub name: String,
    pub modifier: SparseModifier,
}

/// What a sparse vector of a collection is.
pub struct SparseSpecV {
    pub name: Seq<char>,
    pub modifier: SparseModifier,
}

impl View for SparseVectorSpec {
    type V = SparseSpecV;

    open spec fn view(&self) -> SparseSpecV {
        SparseSpecV { name: self.name@, modifier: self.modifier }
    }
}

impl SparseVectorSpec {
    /// A copy of the vector.
    pub fn copy(&self) -> (r: SparseVectorSpec)
        ensures
            r@ == self@,
    {
        SparseVectorSpec { name: self.name.clone(), modifier: self.modifier }
    }

    /// Whether two vectors are the same.
    pub fn same(&self, other: &SparseVectorSpec) -> (r: bool)
        ensures
            r == (self@ == other@),
    {
        text::same(self.name.as_str(), other.name.as_str()) && self.modifier == other.modifier
    }
}

/// What happens to a key of a document that the schema does not name.
#[derive(Clone, Copy, Debug, PartialEq, Eq, Structural)]
pub enum DynamicMapping {
    Strict,
    Ignore,
    Mapped,
}

/// The schema of a collection; annotations have different names, in order.
#[derive(Debug)]
pub struct CollectionSchema {
    pub version: u64,
    pub fields: Vec<FieldSpec>,
    pub vectors: Vec<VectorSpec>,
    pub sparse_vectors: Vec<SparseVectorSpec>,
    pub dynamic: DynamicMapping,
    pub max_fields: u32,
    pub annotations: Vec<(String, String)>,
}

/// What a schema is.
pub struct SchemaV {
    pub version: u64,
    pub fields: Seq<FieldSpecV>,
    pub vectors: Seq<VectorSpecV>,
    pub sparse_vectors: Seq<SparseSpecV>,
    pub dynamic: DynamicMapping,
    pub max_fields: u32,
    pub annotations: Seq<(Seq<char>, Seq<char>)>,
}

/// What some fields are.
pub open spec fn field_views(s: Seq<FieldSpec>) -> Seq<FieldSpecV> {
    Seq::new(s.len(), |i: int| s[i]@)
}

/// What some dense vectors are.
pub open spec fn vector_views(s: Seq<VectorSpec>) -> Seq<VectorSpecV> {
    Seq::new(s.len(), |i: int| s[i]@)
}

/// What some sparse vectors are.
pub open spec fn sparse_views(s: Seq<SparseVectorSpec>) -> Seq<SparseSpecV> {
    Seq::new(s.len(), |i: int| s[i]@)
}

/// Names with their texts.
pub open spec fn pair_views(s: Seq<(String, String)>) -> Seq<(Seq<char>, Seq<char>)> {
    Seq::new(s.len(), |i: int| (s[i].0@, s[i].1@))
}

/// The names of some fields.
pub open spec fn field_names(s: Seq<FieldSpecV>) -> Seq<Seq<char>> {
    Seq::new(s.len(), |i: int| s[i].name)
}

/// The names of some dense vectors.
pub open spec fn vector_names(s: Seq<VectorSpecV>) -> Seq<Seq<char>> {
    Seq::new(s.len(), |i: int| s[i].name)
}

/// The names of some sparse vectors.
pub open spec fn sparse_names(s: Seq<SparseSpecV>) -> Seq<Seq<char>> {
    Seq::new(s.len(), |i: int| s[i].name)
}

impl View for CollectionSchema {
    type V = SchemaV;

    open spec fn view(&self) -> SchemaV {
        SchemaV {
            version: self.version,
            fields: field_views(self.fields@),
            vectors: vector_views(self.vectors@),
            sparse_vectors: sparse_views(self.sparse_vectors@),
            dynamic: self.dynamic,
            max_fields: self.max_fields,
            annotations: pair_views(self.annotations@),
        }
    }
}

/// The place of the field named `name`, the first if there are several.
pub fn find_field(fields: &Vec<FieldSpec>, name: &str) -> (r: Option<usize>)
    ensures
        match r {
            Some(i) => text::is_first(field_names(field_views(fields@)), name@, i as int),
            None => text::absent(field_names(field_views(fields@)), name@),
        },
{
    let ghost all = field_names(field_views(fields@));
    let mut i: usize = 0;
    while i < fields.len()
        invariant
            i <= fields@.len(),
            all == field_names(field_views(fields@)),
            forall|j: int| 0 <= j < i ==> #[trigger] all[j] != name@,
        decreases fields.len() - i,
    {
        assert(all[i as int] == fields@[i as int].name@);
        if text::same(fields[i].name.as_str(), name) {
            return Some(i);
        }
        i += 1;
    }
    None
}

/// The place of the dense vector named `name`, the first if there are
/// several.
pub fn find_vector(vectors: &Vec<VectorSpec>, name: &str) -> (r: Option<usize>)
    ensures
        match r {
            Some(i) => text::is_first(vector_names(vector_views(vectors@)), name@, i as int),
            None => text::absent(vector_names(vector_views(vectors@)), name@),
        },
{
    let ghost all = vector_names(vector_views(vectors@));
    let mut i: usize = 0;
    while i < vectors.len()
        invariant
            i <= vectors@.len(),
            all == vector_names(vector_views(vectors@)),
            forall|j: int| 0 <= j < i ==> #[trigger] all[j] != name@,
        decreases vectors.len() - i,
    {
        assert(all[i as int] == vectors@[i as int].name@);
        if text::same(vectors[i].name.as_str(), name) {
            return Some(i);
        }
        i += 1;
    }
    None
}

/// The place of the sparse vector named `name`, the first if there are
/// several.
pub fn find_sparse(vectors: &Vec<SparseVectorSpec>, name: &str) -> (r: Option<usize>)
    ensures
        match r {
            Some(i) => text::is_first(sparse_names(sparse_views(vectors@)), name@, i as int),
            None => text::absent(sparse_names(sparse_views(vectors@)), name@),
        },
{
    let ghost all = sparse_names(sparse_views(vectors@));
    let mut i: usize = 0;
    while i < vectors.len()
        invariant
            i <= vectors@.len(),
            all == sparse_names(sparse_views(vectors@)),
            forall|j: int| 0 <= j < i ==> #[trigger] all[j] != name@,
        decreases vectors.len() - i,
    {
        assert(all[i as int] == vectors@[i as int].name@);
        if text::same(vectors[i].name.as_str(), name) {
            return Some(i);
        }
        i += 1;
    }
    None
}

fn copy_fields(v: &Vec<FieldSpec>) -> (r: Vec<FieldSpec>)
    ensures
        field_views(r@) == field_views(v@),
{
    let mut out: Vec<FieldSpec> = Vec::new();
    let mut i: usize = 0;
    while i < v.len()
        invariant
            i <= v@.len(),
            out@.len() == i,
            forall|j: int| 0 <= j < i ==> (#[trigger] out@[j])@ == v@[j]@,
        decreases v.len() - i,
    {
        out.push(v[i].copy());
        i += 1;
    }
    proof {
        assert(field_views(out@) =~= field_views(v@));
    }
    out
}

fn copy_vectors(v: &Vec<VectorSpec>) -> (r: Vec<VectorSpec>)
    ensures
        vector_views(r@) == vector_views(v@),
{
    let mut out: Vec<VectorSpec> = Vec::new();
    let mut i: usize = 0;
    while i < v.len()
        invariant
            i <= v@.len(),
            out@.len() == i,
            forall|j: int| 0 <= j < i ==> (#[trigger] out@[j])@ == v@[j]@,
        decreases v.len() - i,
    {
        out.push(v[i].copy());
        i += 1;
    }
    proof {
        assert(vector_views(out@) =~= vector_views(v@));
    }
    out
}

fn copy_sparse(v: &Vec<SparseVectorSpec>) -> (r: Vec<SparseVectorSpec>)
    ensures
        sparse_views(r@) == sparse_views(v@),
{
    let mut out: Vec<SparseVectorSpec> = Vec::new();
    let mut i: usize = 0;
    while i < v.len()
        invariant
            i <= v@.len(),
            out@.len() == i,
            forall|j: int| 0 <= j < i ==> (#[trigger] out@[j])@ == v@[j]@,
        decreases v.len() - i,
    {
        out.push(v[i].copy());
        i += 1;
    }
    proof {
        assert(sparse_views(out@) =~= sparse_views(v@));
    }
    out
}

/// A copy of some pairs.
pub fn copy_pairs(v: &Vec<(String, String)>) -> (r: Vec<(String, String)>)
    ensures
        pair_views(r@) == pair_views(v@),
{
    let mut out: Vec<(String, String)> = Vec::new();
    let mut i: usize = 0;
    while i < v.len()
        invariant
            i <= v@.len(),
            out@.len() == i,
            forall|j: int|
                0 <= j < i ==> (#[trigger] out@[j]).0@ == v@[j].0@ && out@[j].1@ == v@[j].1@,
        decreases v.len() - i,
    {
        out.push((v[i].0.clone(), v[i].1.clone()));
        i += 1;
    }
    proof {
        assert(pair_views(out@) =~= pair_views(v@));
    }
    out
}

impl CollectionSchema {
    /// A copy of the schema.
    pub fn copy(&self) -> (r: CollectionSchema)
        ensures
            r@ == self@,
    {
        CollectionSchema {
            version: self.version,
            fields: copy_fields(&self.fields),
            vectors: copy_vectors(&self.vectors),
            sparse_vectors: copy_sparse(&self.sparse_vectors),
            dynamic: self.dynamic,
            max_fields: self.max_fields,
            annotations: copy_pairs(&self.annotations),
        }
    }

    /// Whether two schemas are the same but for their versions.
    pub fn same_ignoring_version(&self, other: &CollectionSchema) -> (r: bool)
        ensures
            r == (SchemaV { version: 0, ..self@ } == SchemaV { version: 0, ..other@ }),
    {
        let a = same_fields(&self.fields, &other.fields);
        let b = same_vectors(&self.vectors, &other.vectors);
        let c = same_sparse(&self.sparse_vectors, &other.sparse_vectors);
        let d = same_pairs(&self.annotations, &other.annotations);
        a && b && c && d && self.dynamic == other.dynamic && self.max_fields == other.max_fields
    }
}

fn same_fields(a: &Vec<FieldSpec>, b: &Vec<FieldSpec>) -> (r: bool)
    ensures
        r == (field_views(a@) == field_views(b@)),
{
    let ghost x = field_views(a@);
    let ghost y = field_views(b@);
    if a.len() != b.len() {
        assert(x.len() != y.len());
        return false;
    }
    let mut i: usize = 0;
    while i < a.len()
        invariant
            i <= a@.len(),
            a@.len() == b@.len(),
            x == field_views(a@),
            y == field_views(b@),
            forall|j: int| 0 <= j < i ==> x[j] == y[j],
        decreases a.len() - i,
    {
        if !a[i].same(&b[i]) {
            assert(x[i as int] != y[i as int]);
            return false;
        }
        i += 1;
    }
    assert(x =~= y);
    true
}

fn same_vectors(a: &Vec<VectorSpec>, b: &Vec<VectorSpec>) -> (r: bool)
    ensures
        r == (vector_views(a@) == vector_views(b@)),
{
    let ghost x = vector_views(a@);
    let ghost y = vector_views(b@);
    if a.len() != b.len() {
        assert(x.len() != y.len());
        return false;
    }
    let mut i: usize = 0;
    while i < a.len()
        invariant
            i <= a@.len(),
            a@.len() == b@.len(),
            x == vector_views(a@),
            y == vector_views(b@),
            forall|j: int| 0 <= j < i ==> x[j] == y[j],
        decreases a.len() - i,
    {
        if !a[i].same(&b[i]) {
            assert(x[i as int] != y[i as int]);
            return false;
        }
        i += 1;
    }
    assert(x =~= y);
    true
}

fn same_sparse(a: &Vec<SparseVectorSpec>, b: &Vec<SparseVectorSpec>) -> (r: bool)
    ensures
        r == (sparse_views(a@) == sparse_views(b@)),
{
    let ghost x = sparse_views(a@);
    let ghost y = sparse_views(b@);
    if a.len() != b.len() {
        assert(x.len() != y.len());
        return false;
    }
    let mut i: usize = 0;
    while i < a.len()
        invariant
            i <= a@.len(),
            a@.len() == b@.len(),
            x == sparse_views(a@),
            y == sparse_views(b@),
            forall|j: int| 0 <= j < i ==> x[j] == y[j],
        decreases a.len() - i,
    {
        if !a[i].same(&b[i]) {
            assert(x[i as int] != y[i as int]);
            return false;
        }
        i += 1;
    }
    assert(x =~= y);
    true
}

/// Whether two lists of pairs are the same.
pub fn same_pairs(a: &Vec<(String, String)>, b: &Vec<(String, String)>) -> (r: bool)
    ensures
        r == (pair_views(a@) == pair_views(b@)),
{
    let ghost x = pair_views(a@);
    let ghost y = pair_views(b@);
    if a.len() != b.len() {
        assert(x.len() != y.len());
        return false;
    }
    let mut i: usize = 0;
    while i < a.len()
        invariant
            i <= a@.len(),
            a@.len() == b@.len(),
            x == pair_views(a@),
            y == pair_views(b@),
            forall|j: int| 0 <= j < i ==> x[j] == y[j],
        decreases a.len() - i,
    {
        let same_name = text::same(a[i].0.as_str(), b[i].0.as_str());
        let same_text = text::same(a[i].1.as_str(), b[i].1.as_str());
        if !same_name || !same_text {
            assert(x[i as int] != y[i as int]);
            return false;
        }
        i += 1;
    }
    assert(x =~= y);
    true
}

/// What a field name stands for in a schema.
pub enum ResolvedField {
    Plain(FieldSpec),
    /// A path below a field that holds JSON.
    JsonPath(FieldSpec, String),
    Unknown,
}

} // verus!
