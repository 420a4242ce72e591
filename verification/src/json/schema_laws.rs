//! A schema comes back from its JSON.

use crate::collection::{
    FieldKindV, FieldSpecV, HnswParams, Quantization, SchemaV, SparseSpecV, VectorIndexSpec, VectorSpecV,
};
use crate::error::Failure;
use crate::ir::Distance;
use crate::json::fields;
use crate::json::schema;
use crate::json::schema::SchemaDefaults;
use crate::json::value;
use crate::json::value::Tree;
use crate::json::whole_schema;
use vstd::prelude::*;
use vstd::string::*;

verus! {

proof fn lookup_at(es: Seq<(Seq<char>, Tree)>, key: Seq<char>, i: int)
    requires
        0 <= i < es.len(),
        es[i].0 == key,
        forall|j: int| 0 <= j < i ==> (#[trigger] es[j]).0 != key,
    ensures
        value::lookup(es, key) == Some(es[i].1),
    decreases es.len(),
{
    if i > 0 {
        assert(es[0].0 != key);
        let rest = es.drop_first();
        assert forall|j: int| 0 <= j < i - 1 implies (#[trigger] rest[j]).0 != key by {
            assert(rest[j] == es[j + 1]);
        }
        lookup_at(rest, key, i - 1);
    }
}

proof fn all_allowed(es: Seq<(Seq<char>, Tree)>, allowed: Seq<Seq<char>>, i: int)
    requires
        0 <= i,
        forall|j: int| 0 <= j < es.len() ==> allowed.contains((#[trigger] es[j]).0),
    ensures
        fields::unknown_key(es, allowed, i) is None,
    decreases es.len() - i,
{
    if i < es.len() {
        all_allowed(es, allowed, i + 1);
    }
}

proof fn kinds_differ()
    ensures
        "text"@ != "keyword"@,
        "text"@ != "i64"@,
        "text"@ != "f64"@,
        "text"@ != "bool"@,
        "text"@ != "date"@,
        "text"@ != "uuid"@,
        "text"@ != "json"@,
        schema::plain_kind("keyword"@) == Some(FieldKindV::Keyword),
        schema::plain_kind("i64"@) == Some(FieldKindV::I64),
        schema::plain_kind("f64"@) == Some(FieldKindV::F64),
        schema::plain_kind("bool"@) == Some(FieldKindV::Bool),
        schema::plain_kind("date"@) == Some(FieldKindV::Date),
        schema::plain_kind("uuid"@) == Some(FieldKindV::Uuid),
        schema::plain_kind("json"@) == Some(FieldKindV::Json),
{
    reveal_strlit("text");
    reveal_strlit("keyword");
    reveal_strlit("i64");
    reveal_strlit("f64");
    reveal_strlit("bool");
    reveal_strlit("date");
    reveal_strlit("uuid");
    reveal_strlit("json");
    assert("text"@[0] == 't' && "keyword"@[0] == 'k' && "i64"@[0] == 'i' && "f64"@[0] == 'f'
        && "bool"@[0] == 'b' && "date"@[0] == 'd' && "uuid"@[0] == 'u' && "json"@[0] == 'j');
}

proof fn kind_round_trip(k: FieldKindV)
    ensures
        schema::kind_in(schema::kind_json(k)) == Ok::<FieldKindV, Failure>(k),
        !(schema::kind_json(k) is Null),
{
    kinds_differ();
    match k {
        FieldKindV::Text { analyzer, positions } => {
            reveal_strlit("analyzer");
            reveal_strlit("positions");
            let t = schema::kind_json(k);
            let es = t->Object_0[0].1->Object_0;
            assert(t->Object_0[0].0 == "text"@);
            let allowed = seq!["analyzer"@, "positions"@];
            assert(allowed[0] == "analyzer"@ && allowed[1] == "positions"@);
            assert(es[0] == ("analyzer"@, Tree::Text(analyzer)));
            assert(es[1] == ("positions"@, Tree::Bool(positions)));
            assert("analyzer"@[0] == 'a' && "positions"@[0] == 'p');
            all_allowed(es, allowed, 0);
            lookup_at(es, "analyzer"@, 0);
            lookup_at(es, "positions"@, 1);
        },
        _ => {},
    }
}

proof fn field_round_trip(f: FieldSpecV)
    ensures
        schema::field_in(schema::field_json(f)) == Ok::<FieldSpecV, Failure>(f),
{
    kind_round_trip(f.kind);
    reveal_strlit("fast");
    reveal_strlit("ignore_malformed");
    reveal_strlit("indexed");
    reveal_strlit("kind");
    reveal_strlit("name");
    reveal_strlit("source_path");
    assert("fast"@.len() == 4 && "ignore_malformed"@.len() == 16 && "indexed"@.len() == 7
        && "source_path"@.len() == 11 && "fast"@[0] == 'f' && "kind"@[0] == 'k' && "name"@[0]
        == 'n');
    let es = schema::field_json(f)->Object_0;
    let allowed = schema::field_keys();
    assert(allowed[0] == "name"@ && allowed[1] == "source_path"@ && allowed[2] == "kind"@
        && allowed[3] == "indexed"@ && allowed[4] == "fast"@ && allowed[5]
        == "ignore_malformed"@);
    assert(es[0].0 == "fast"@ && es[1].0 == "ignore_malformed"@ && es[2].0 == "indexed"@ && es[3].0
        == "kind"@ && es[4].0 == "name"@ && es[5].0 == "source_path"@);
    all_allowed(es, allowed, 0);
    lookup_at(es, "fast"@, 0);
    lookup_at(es, "ignore_malformed"@, 1);
    lookup_at(es, "indexed"@, 2);
    lookup_at(es, "kind"@, 3);
    lookup_at(es, "name"@, 4);
    lookup_at(es, "source_path"@, 5);
}

proof fn index_round_trip(i: VectorIndexSpec)
    ensures
        schema::index_in(schema::index_json(i)) == Ok::<VectorIndexSpec, Failure>(i),
        !(schema::index_json(i) is Null),
{
    reveal_strlit("auto");
    reveal_strlit("none");
    reveal_strlit("ivf_pq");
    reveal_strlit("ivf_rq");
    reveal_strlit("ivf_hnsw_sq");
    reveal_strlit("num_bits");
    reveal_strlit("num_partitions");
    reveal_strlit("num_sub_vectors");
    assert("auto"@[0] == 'a' && "none"@[0] == 'n' && "ivf_pq"@[0] == 'i' && "ivf_rq"@[0] == 'i'
        && "ivf_hnsw_sq"@[0] == 'i' && "ivf_pq"@[4] == 'p' && "ivf_rq"@[4] == 'r'
        && "ivf_hnsw_sq"@[4] == 'h');
    assert("num_bits"@.len() == 8 && "num_partitions"@.len() == 14 && "num_sub_vectors"@.len()
        == 15);
    let t = schema::index_json(i);
    match i {
        VectorIndexSpec::Auto => {},
        VectorIndexSpec::Unindexed => {},
        VectorIndexSpec::IvfPq { num_partitions, num_sub_vectors, num_bits } => {
            let es = t->Object_0[0].1->Object_0;
            assert(t->Object_0[0].0 == "ivf_pq"@);
            let allowed = seq!["num_partitions"@, "num_sub_vectors"@, "num_bits"@];
            assert(allowed[0] == "num_partitions"@ && allowed[1] == "num_sub_vectors"@ && allowed[2]
                == "num_bits"@);
            assert(es[0].0 == "num_bits"@ && es[1].0 == "num_partitions"@ && es[2].0
                == "num_sub_vectors"@);
            all_allowed(es, allowed, 0);
            lookup_at(es, "num_bits"@, 0);
            lookup_at(es, "num_partitions"@, 1);
            lookup_at(es, "num_sub_vectors"@, 2);
        },
        VectorIndexSpec::IvfRq { num_partitions, num_bits } => {
            let es = t->Object_0[0].1->Object_0;
            assert(t->Object_0[0].0 == "ivf_rq"@);
            let allowed = seq!["num_partitions"@, "num_bits"@];
            assert(allowed[0] == "num_partitions"@ && allowed[1] == "num_bits"@);
            assert(es[0].0 == "num_bits"@ && es[1].0 == "num_partitions"@);
            all_allowed(es, allowed, 0);
            lookup_at(es, "num_bits"@, 0);
            lookup_at(es, "num_partitions"@, 1);
        },
        VectorIndexSpec::IvfHnswSq { num_partitions } => {
            let es = t->Object_0[0].1->Object_0;
            assert(t->Object_0[0].0 == "ivf_hnsw_sq"@);
            let allowed = seq!["num_partitions"@];
            assert(allowed[0] == "num_partitions"@);
            assert(es[0].0 == "num_partitions"@);
            all_allowed(es, allowed, 0);
            lookup_at(es, "num_partitions"@, 0);
        },
    }
}

proof fn hnsw_round_trip(h: HnswParams, d: HnswParams)
    requires
        h.payload_m is Some || d.payload_m is None,
    ensures
        schema::hnsw_in(schema::hnsw_json(h), d) == Ok::<HnswParams, Failure>(h),
{
    reveal_strlit("ef_construct");
    reveal_strlit("full_scan_threshold_kb");
    reveal_strlit("m");
    reveal_strlit("on_disk");
    reveal_strlit("payload_m");
    assert("ef_construct"@.len() == 12 && "full_scan_threshold_kb"@.len() == 22 && "m"@.len() == 1
        && "on_disk"@.len() == 7 && "payload_m"@.len() == 9);
    let es = schema::hnsw_json(h)->Object_0;
    let allowed = schema::hnsw_keys();
    assert(allowed[0] == "m"@ && allowed[1] == "ef_construct"@ && allowed[2]
        == "full_scan_threshold_kb"@ && allowed[3] == "payload_m"@ && allowed[4] == "on_disk"@);
    assert(es[0].0 == "ef_construct"@ && es[1].0 == "full_scan_threshold_kb"@ && es[2].0 == "m"@
        && es[3].0 == "on_disk"@ && es[4].0 == "payload_m"@);
    all_allowed(es, allowed, 0);
    lookup_at(es, "ef_construct"@, 0);
    lookup_at(es, "full_scan_threshold_kb"@, 1);
    lookup_at(es, "m"@, 2);
    lookup_at(es, "on_disk"@, 3);
    lookup_at(es, "payload_m"@, 4);
}

proof fn quantization_round_trip(q: Quantization)
    ensures
        schema::quantization_in(schema::quantization_json(Some(q))) == Ok::<Quantization, Failure>(
            q,
        ),
        !(schema::quantization_json(Some(q)) is Null),
{
    reveal_strlit("scalar");
    reveal_strlit("product");
    reveal_strlit("binary");
    reveal_strlit("always_ram");
    reveal_strlit("quantile_ppm");
    reveal_strlit("compression_ratio");
    assert("scalar"@[0] == 's' && "product"@[0] == 'p' && "binary"@[0] == 'b');
    assert("always_ram"@.len() == 10 && "quantile_ppm"@.len() == 12 && "compression_ratio"@.len()
        == 17);
    let t = schema::quantization_json(Some(q));
    let es = t->Object_0[0].1->Object_0;
    match q {
        Quantization::Scalar { .. } => {
            let allowed = seq!["quantile_ppm"@, "always_ram"@];
            assert(t->Object_0[0].0 == "scalar"@);
            assert(allowed[0] == "quantile_ppm"@ && allowed[1] == "always_ram"@);
            assert(es[0].0 == "always_ram"@ && es[1].0 == "quantile_ppm"@);
            all_allowed(es, allowed, 0);
            lookup_at(es, "always_ram"@, 0);
            lookup_at(es, "quantile_ppm"@, 1);
        },
        Quantization::Product { .. } => {
            let allowed = seq!["compression_ratio"@, "always_ram"@];
            assert(t->Object_0[0].0 == "product"@);
            assert(allowed[0] == "compression_ratio"@ && allowed[1] == "always_ram"@);
            assert(es[0].0 == "always_ram"@ && es[1].0 == "compression_ratio"@);
            all_allowed(es, allowed, 0);
            lookup_at(es, "always_ram"@, 0);
            lookup_at(es, "compression_ratio"@, 1);
        },
        Quantization::Binary { .. } => {
            let allowed = seq!["always_ram"@];
            assert(t->Object_0[0].0 == "binary"@);
            assert(allowed[0] == "always_ram"@);
            assert(es[0].0 == "always_ram"@);
            all_allowed(es, allowed, 0);
            lookup_at(es, "always_ram"@, 0);
        },
    }
}

proof fn distances_read_back(d: Distance)
    ensures
        schema::distance_in(schema::distance_text(d)) == Some(d),
{
    reveal_strlit("cosine");
    reveal_strlit("dot");
    reveal_strlit("euclid");
    reveal_strlit("manhattan");
    assert("cosine"@[0] == 'c' && "dot"@[0] == 'd' && "euclid"@[0] == 'e' && "manhattan"@[0]
        == 'm');
}

proof fn vector_round_trip(v: VectorSpecV, d: HnswParams)
    requires
        v.hnsw.payload_m is Some || d.payload_m is None,
    ensures
        schema::vector_in(schema::vector_json(v), d) == Ok::<VectorSpecV, Failure>(v),
{
    hnsw_round_trip(v.hnsw, d);
    index_round_trip(v.index);
    distances_read_back(v.distance);
    if let Some(q) = v.quantization {
        quantization_round_trip(q);
    }
    reveal_strlit("dim");
    reveal_strlit("distance");
    reveal_strlit("element");
    reveal_strlit("hnsw");
    reveal_strlit("index");
    reveal_strlit("name");
    reveal_strlit("quantization");
    assert("dim"@.len() == 3 && "distance"@.len() == 8 && "element"@.len() == 7 && "hnsw"@[0] == 'h'
        && "hnsw"@.len() == 4 && "index"@.len() == 5 && "name"@[0] == 'n' && "name"@.len() == 4
        && "quantization"@.len() == 12);
    let es = schema::vector_json(v)->Object_0;
    let allowed = schema::vector_keys();
    assert(allowed[0] == "name"@ && allowed[1] == "dim"@ && allowed[2] == "distance"@ && allowed[3]
        == "element"@ && allowed[4] == "index"@ && allowed[5] == "hnsw"@ && allowed[6]
        == "quantization"@);
    assert(es[0].0 == "dim"@ && es[1].0 == "distance"@ && es[2].0 == "element"@ && es[3].0
        == "hnsw"@ && es[4].0 == "index"@ && es[5].0 == "name"@ && es[6].0 == "quantization"@);
    all_allowed(es, allowed, 0);
    lookup_at(es, "dim"@, 0);
    lookup_at(es, "distance"@, 1);
    lookup_at(es, "element"@, 2);
    lookup_at(es, "hnsw"@, 3);
    lookup_at(es, "index"@, 4);
    lookup_at(es, "name"@, 5);
    lookup_at(es, "quantization"@, 6);
}

proof fn sparse_round_trip(s: SparseSpecV)
    ensures
        schema::sparse_in(schema::sparse_json(s)) == Ok::<SparseSpecV, Failure>(s),
{
    reveal_strlit("none");
    reveal_strlit("idf");
    reveal_strlit("modifier");
    reveal_strlit("name");
    assert("none"@.len() == 4 && "idf"@.len() == 3 && "modifier"@.len() == 8 && "name"@.len() == 4);
    let es = schema::sparse_json(s)->Object_0;
    let allowed = seq!["name"@, "modifier"@];
    assert(allowed[0] == "name"@ && allowed[1] == "modifier"@);
    assert(es[0].0 == "modifier"@ && es[1].0 == "name"@);
    all_allowed(es, allowed, 0);
    lookup_at(es, "modifier"@, 0);
    lookup_at(es, "name"@, 1);
}

proof fn fields_round_trip(s: Seq<FieldSpecV>, n: nat)
    requires
        n <= s.len(),
    ensures
        whole_schema::fields_in(whole_schema::field_list(s)->Array_0, n) == Ok::<
            Seq<FieldSpecV>,
            Failure,
        >(s.take(n as int)),
    decreases n,
{
    if n == 0 {
        assert(s.take(0) =~= Seq::empty());
    } else {
        fields_round_trip(s, (n - 1) as nat);
        field_round_trip(s[n - 1]);
        assert(s.take(n as int) =~= s.take(n - 1).push(s[n - 1]));
    }
}

proof fn vectors_round_trip(s: Seq<VectorSpecV>, d: HnswParams, n: nat)
    requires
        n <= s.len(),
        forall|i: int|
            0 <= i < s.len() ==> (#[trigger] s[i]).hnsw.payload_m is Some || d.payload_m is None,
    ensures
        whole_schema::vectors_in(whole_schema::vector_list(s)->Array_0, d, n) == Ok::<
            Seq<VectorSpecV>,
            Failure,
        >(s.take(n as int)),
    decreases n,
{
    if n == 0 {
        assert(s.take(0) =~= Seq::empty());
    } else {
        vectors_round_trip(s, d, (n - 1) as nat);
        vector_round_trip(s[n - 1], d);
        assert(s.take(n as int) =~= s.take(n - 1).push(s[n - 1]));
    }
}

proof fn sparses_round_trip(s: Seq<SparseSpecV>, n: nat)
    requires
        n <= s.len(),
    ensures
        whole_schema::sparses_in(whole_schema::sparse_list(s)->Array_0, n) == Ok::<
            Seq<SparseSpecV>,
            Failure,
        >(s.take(n as int)),
    decreases n,
{
    if n == 0 {
        assert(s.take(0) =~= Seq::empty());
    } else {
        sparses_round_trip(s, (n - 1) as nat);
        sparse_round_trip(s[n - 1]);
        assert(s.take(n as int) =~= s.take(n - 1).push(s[n - 1]));
    }
}

/// A schema comes back from its JSON with its version, and at version one
/// where the version is not asked for. A vector's graph may leave out its
/// payload links only where the default leaves them out too.
pub proof fn schema_round_trip(s: SchemaV, d: SchemaDefaults)
    requires
        forall|i: int|
            0 <= i < s.vectors.len() ==> (#[trigger] s.vectors[i]).hnsw.payload_m is Some
                || d.hnsw.payload_m is None,
    ensures
        whole_schema::schema_in(whole_schema::schema_json(s), d) == Ok::<
            (Option<u64>, SchemaV),
            Failure,
        >((Some(s.version), SchemaV { version: 1, ..s })),
        whole_schema::versioned((Some(s.version), SchemaV { version: 1, ..s })) == s,
{
    reveal_strlit("annotations");
    reveal_strlit("dynamic");
    reveal_strlit("fields");
    reveal_strlit("max_fields");
    reveal_strlit("sparse_vectors");
    reveal_strlit("vectors");
    reveal_strlit("version");
    reveal_strlit("strict");
    reveal_strlit("ignore");
    reveal_strlit("map");
    assert("annotations"@.len() == 11 && "dynamic"@.len() == 7 && "fields"@.len() == 6
        && "max_fields"@.len() == 10 && "sparse_vectors"@.len() == 14 && "vectors"@.len() == 7
        && "version"@.len() == 7 && "dynamic"@[0] == 'd' && "vectors"@[0] == 'v' && "version"@[0]
        == 'v' && "vectors"@[2] == 'c' && "version"@[2] == 'r');
    assert("strict"@[0] == 's' && "ignore"@[0] == 'i' && "map"@[0] == 'm');
    let es = whole_schema::schema_json(s)->Object_0;
    let allowed = whole_schema::schema_keys();
    assert(allowed[0] == "version"@ && allowed[1] == "fields"@ && allowed[2] == "vectors"@
        && allowed[3] == "sparse_vectors"@ && allowed[4] == "dynamic"@ && allowed[5]
        == "max_fields"@ && allowed[6] == "annotations"@);
    assert(es[0].0 == "annotations"@ && es[1].0 == "dynamic"@ && es[2].0 == "fields"@ && es[3].0
        == "max_fields"@ && es[4].0 == "sparse_vectors"@ && es[5].0 == "vectors"@ && es[6].0
        == "version"@);
    all_allowed(es, allowed, 0);
    lookup_at(es, "annotations"@, 0);
    lookup_at(es, "dynamic"@, 1);
    lookup_at(es, "fields"@, 2);
    lookup_at(es, "max_fields"@, 3);
    lookup_at(es, "sparse_vectors"@, 4);
    lookup_at(es, "vectors"@, 5);
    lookup_at(es, "version"@, 6);
    fields_round_trip(s.fields, s.fields.len());
    vectors_round_trip(s.vectors, d.hnsw, s.vectors.len());
    sparses_round_trip(s.sparse_vectors, s.sparse_vectors.len());
    assert(s.fields.take(s.fields.len() as int) =~= s.fields);
    assert(s.vectors.take(s.vectors.len() as int) =~= s.vectors);
    assert(s.sparse_vectors.take(s.sparse_vectors.len() as int) =~= s.sparse_vectors);
    let a = whole_schema::annotations_json(s.annotations)->Object_0;
    assert(Seq::new(a.len(), |i: int| (a[i].0, a[i].1->Text_0)) =~= s.annotations);
    assert(whole_schema::annotations_in(es) == Ok::<Seq<(Seq<char>, Seq<char>)>, Failure>(
        s.annotations,
    ));
}

} // verus!
