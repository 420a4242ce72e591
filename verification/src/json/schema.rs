//! Schemas as JSON: writing holds every key; reading fills in defaults and
//! refuses unknown keys.

use crate::collection::{
    FieldKind, FieldKindV, FieldSpec, FieldSpecV, HnswParams, Quantization, SparseModifier, SparseSpecV, SparseVectorSpec, VectorElement, VectorIndexSpec, VectorSpec, VectorSpecV,
};
use crate::error;
use crate::error::{Failure, ServiceError};
use crate::ir::Distance;
use crate::json::fields;
use crate::json::fields::Obj;
use crate::json::value;
use crate::json::value::{Json, Num, Number, Tree};
use crate::text;
use vstd::prelude::*;
use vstd::string::*;

verus! {

broadcast use {crate::json::value::view_object, crate::json::value::view_array};

/// What a schema has where its JSON does not say.
#[derive(Clone, Copy, Debug)]
pub struct SchemaDefaults {
    pub hnsw: HnswParams,
    pub max_fields: u32,
}

/// A bare name, or a one-key object of a name and its settings.
pub open spec fn tag_in(t: Tree, what: Seq<char>) -> Result<(Seq<char>, Option<Tree>), Failure> {
    match t {
        Tree::Text(s) => Ok((s, None)),
        Tree::Object(es) => if es.len() == 1 {
            Ok((es[0].0, Some(es[0].1)))
        } else {
            Err(fields::invalid("invalid "@ + what + ": "@ + value::json_text(t)))
        },
        _ => Err(fields::invalid("invalid "@ + what + ": "@ + value::json_text(t))),
    }
}

fn tagged<'a>(v: &'a Json, what: &str) -> (r: Result<(&'a str, Option<&'a Json>), ServiceError>)
    ensures
        match r {
            Ok((name, body)) => tag_in(v@, what@) == Ok::<(Seq<char>, Option<Tree>), Failure>(
                (name@, opt_tree(body)),
            ),
            Err(e) => tag_in(v@, what@) == Err::<(Seq<char>, Option<Tree>), Failure>(e@),
        },
{
    match v {
        Json::Text(s) => Ok((s.as_str(), None)),
        Json::Object(es) => if es.len() == 1 {
            assert(value::entries_of(es@)[0] == (es@[0].0@, es@[0].1@));
            Ok((es[0].0.as_str(), Some(&es[0].1)))
        } else {
            let mut m = text::cat3("invalid ", what, ": ");
            m.append(&v.text());
            Err(error::invalid(m))
        },
        _ => {
            let mut m = text::cat3("invalid ", what, ": ");
            m.append(&v.text());
            Err(error::invalid(m))
        },
    }
}

/// A value that may be absent.
pub open spec fn opt_tree(v: Option<&Json>) -> Option<Tree> {
    match v {
        Some(v) => Some(v@),
        None => None,
    }
}

/// The settings of a tag, empty where it is bare.
pub open spec fn settings(body: Option<Tree>) -> Tree {
    match body {
        Some(t) => t,
        None => Tree::Object(Seq::empty()),
    }
}

fn copy_settings(body: Option<&Json>) -> (r: Json)
    ensures
        r@ == settings(opt_tree(body)),
{
    match body {
        Some(v) => v.copy(),
        None => {
            let es: Vec<(String, Json)> = Vec::new();
            assert(value::entries_of(es@) =~= Seq::empty());
            Json::Object(es)
        },
    }
}

/// The name of a distance.
pub open spec fn distance_text(d: Distance) -> Seq<char> {
    match d {
        Distance::Cosine => "cosine"@,
        Distance::Dot => "dot"@,
        Distance::Euclid => "euclid"@,
        Distance::Manhattan => "manhattan"@,
    }
}

/// The distance of a name.
pub open spec fn distance_in(s: Seq<char>) -> Option<Distance> {
    if s == "cosine"@ {
        Some(Distance::Cosine)
    } else if s == "dot"@ {
        Some(Distance::Dot)
    } else if s == "euclid"@ {
        Some(Distance::Euclid)
    } else if s == "manhattan"@ {
        Some(Distance::Manhattan)
    } else {
        None
    }
}

/// The name of a distance.
pub fn distance_name(d: Distance) -> (r: &'static str)
    ensures
        r@ == distance_text(d),
{
    match d {
        Distance::Cosine => "cosine",
        Distance::Dot => "dot",
        Distance::Euclid => "euclid",
        Distance::Manhattan => "manhattan",
    }
}

/// The distance of a name.
pub fn parse_distance(name: &str) -> (r: Option<Distance>)
    ensures
        r == distance_in(name@),
{
    if text::same(name, "cosine") {
        Some(Distance::Cosine)
    } else if text::same(name, "dot") {
        Some(Distance::Dot)
    } else if text::same(name, "euclid") {
        Some(Distance::Euclid)
    } else if text::same(name, "manhattan") {
        Some(Distance::Manhattan)
    } else {
        None
    }
}

fn number(n: u64) -> (r: Json)
    ensures
        r@ == Tree::Number(Num::Unsigned(n)),
{
    Json::Number(Number::Unsigned(n))
}

/// A number that may be absent, as JSON.
pub open spec fn opt_number(n: Option<u32>) -> Tree {
    match n {
        Some(n) => Tree::Number(Num::Unsigned(n as u64)),
        None => Tree::Null,
    }
}

fn opt_to_json(n: Option<u32>) -> (r: Json)
    ensures
        r@ == opt_number(n),
{
    match n {
        Some(n) => number(n as u64),
        None => Json::Null,
    }
}

/// Appends an entry.
pub(crate) fn push(es: &mut Vec<(String, Json)>, key: &str, v: Json)
    ensures
        value::entries_of(final(es)@) == value::entries_of(old(es)@).push((key@, v@)),
{
    let ghost was = value::entries_of(es@);
    es.push((key.to_owned(), v));
    assert(value::entries_of(es@) =~= was.push((key@, v@)));
}

/// No entries.
pub(crate) fn no_entries() -> (r: Vec<(String, Json)>)
    ensures
        value::entries_of(r@) == Seq::<(Seq<char>, Tree)>::empty(),
{
    let es: Vec<(String, Json)> = Vec::new();
    assert(value::entries_of(es@) =~= Seq::empty());
    es
}

fn tag(name: &str, body: Vec<(String, Json)>) -> (r: Json)
    ensures
        r@ == Tree::Object(seq![(name@, Tree::Object(value::entries_of(body@)))]),
{
    let mut es = no_entries();
    let ghost inner = value::entries_of(body@);
    push(&mut es, name, Json::Object(body));
    assert(value::entries_of(es@) =~= seq![(name@, Tree::Object(inner))]);
    Json::Object(es)
}

/// A field kind as JSON.
pub open spec fn kind_json(k: FieldKindV) -> Tree {
    match k {
        FieldKindV::Text { analyzer, positions } => Tree::Object(
            seq![
                (
                    "text"@,
                    Tree::Object(
                        seq![
                            ("analyzer"@, Tree::Text(analyzer)),
                            ("positions"@, Tree::Bool(positions)),
                        ],
                    ),
                ),
            ],
        ),
        FieldKindV::Keyword => Tree::Text("keyword"@),
        FieldKindV::I64 => Tree::Text("i64"@),
        FieldKindV::F64 => Tree::Text("f64"@),
        FieldKindV::Bool => Tree::Text("bool"@),
        FieldKindV::Date => Tree::Text("date"@),
        FieldKindV::Uuid => Tree::Text("uuid"@),
        FieldKindV::Json => Tree::Text("json"@),
    }
}

fn kind_to_json(k: &FieldKind) -> (r: Json)
    ensures
        r@ == kind_json(k@),
{
    match k {
        FieldKind::Text { analyzer, positions } => {
            let mut es = no_entries();
            push(&mut es, "analyzer", Json::Text(analyzer.clone()));
            push(&mut es, "positions", Json::Bool(*positions));
            assert(value::entries_of(es@) =~= seq![
                ("analyzer"@, Tree::Text(analyzer@)),
                ("positions"@, Tree::Bool(*positions)),
            ]);
            tag("text", es)
        },
        FieldKind::Keyword => value::string("keyword"),
        FieldKind::I64 => value::string("i64"),
        FieldKind::F64 => value::string("f64"),
        FieldKind::Bool => value::string("bool"),
        FieldKind::Date => value::string("date"),
        FieldKind::Uuid => value::string("uuid"),
        FieldKind::Json => value::string("json"),
    }
}

/// The settings of a text field.
pub open spec fn text_kind(body: Tree) -> Result<FieldKindV, Failure> {
    match fields::object_in(body, "text"@, seq!["analyzer"@, "positions"@]) {
        Err(e) => Err(e),
        Ok(es) => match fields::text_in(es, "text"@, "analyzer"@) {
            Err(e) => Err(e),
            Ok(a) => match fields::bool_in(es, "text"@, "positions"@, true) {
                Err(e) => Err(e),
                Ok(positions) => Ok(
                    FieldKindV::Text {
                        analyzer: match a {
                            Some(a) => a,
                            None => "standard"@,
                        },
                        positions,
                    },
                ),
            },
        },
    }
}

/// The kind of a name without settings.
pub open spec fn plain_kind(name: Seq<char>) -> Option<FieldKindV> {
    if name == "keyword"@ {
        Some(FieldKindV::Keyword)
    } else if name == "i64"@ {
        Some(FieldKindV::I64)
    } else if name == "f64"@ {
        Some(FieldKindV::F64)
    } else if name == "bool"@ {
        Some(FieldKindV::Bool)
    } else if name == "date"@ {
        Some(FieldKindV::Date)
    } else if name == "uuid"@ {
        Some(FieldKindV::Uuid)
    } else if name == "json"@ {
        Some(FieldKindV::Json)
    } else {
        None
    }
}

/// The field kind of a JSON value.
pub open spec fn kind_in(t: Tree) -> Result<FieldKindV, Failure> {
    match tag_in(t, "field kind"@) {
        Err(e) => Err(e),
        Ok((name, body)) => if name == "text"@ {
            text_kind(settings(body))
        } else {
            match plain_kind(name) {
                None => Err(fields::invalid("unknown field kind "@ + name)),
                Some(k) => if body is Some {
                    Err(fields::invalid("field kind "@ + name + " takes no settings"@))
                } else {
                    Ok(k)
                },
            }
        },
    }
}

fn read_text_kind(body: &Json) -> (r: Result<FieldKind, ServiceError>)
    ensures
        match r {
            Ok(k) => text_kind(body@) == Ok::<FieldKindV, Failure>(k@),
            Err(e) => text_kind(body@) == Err::<FieldKindV, Failure>(e@),
        },
{
    let allowed = ["analyzer", "positions"];
    assert(fields::strs(allowed@) =~= seq!["analyzer"@, "positions"@]);
    let o = match Obj::new(body, "text", &allowed) {
        Ok(o) => o,
        Err(e) => {
            return Err(e);
        },
    };
    let analyzer = match o.string("analyzer") {
        Ok(Some(a)) => a,
        Ok(None) => "standard".to_owned(),
        Err(e) => {
            return Err(e);
        },
    };
    match o.bool("positions", true) {
        Ok(positions) => Ok(FieldKind::Text { analyzer, positions }),
        Err(e) => Err(e),
    }
}

fn named_kind(name: &str) -> (r: Option<FieldKind>)
    ensures
        match r {
            Some(k) => plain_kind(name@) == Some(k@),
            None => plain_kind(name@) is None,
        },
{
    if text::same(name, "keyword") {
        Some(FieldKind::Keyword)
    } else if text::same(name, "i64") {
        Some(FieldKind::I64)
    } else if text::same(name, "f64") {
        Some(FieldKind::F64)
    } else if text::same(name, "bool") {
        Some(FieldKind::Bool)
    } else if text::same(name, "date") {
        Some(FieldKind::Date)
    } else if text::same(name, "uuid") {
        Some(FieldKind::Uuid)
    } else if text::same(name, "json") {
        Some(FieldKind::Json)
    } else {
        None
    }
}

fn kind_from_json(v: &Json) -> (r: Result<FieldKind, ServiceError>)
    ensures
        match r {
            Ok(k) => kind_in(v@) == Ok::<FieldKindV, Failure>(k@),
            Err(e) => kind_in(v@) == Err::<FieldKindV, Failure>(e@),
        },
{
    let (name, body) = match tagged(v, "field kind") {
        Ok(t) => t,
        Err(e) => {
            return Err(e);
        },
    };
    if text::same(name, "text") {
        let s = copy_settings(body);
        return read_text_kind(&s);
    }
    match named_kind(name) {
        None => Err(error::invalid(text::cat2("unknown field kind ", name))),
        Some(k) => if body.is_some() {
            Err(error::invalid(text::cat3("field kind ", name, " takes no settings")))
        } else {
            Ok(k)
        },
    }
}

/// A field as JSON.
pub open spec fn field_json(f: FieldSpecV) -> Tree {
    Tree::Object(
        seq![
            ("fast"@, Tree::Bool(f.fast)),
            ("ignore_malformed"@, Tree::Bool(f.ignore_malformed)),
            ("indexed"@, Tree::Bool(f.indexed)),
            ("kind"@, kind_json(f.kind)),
            ("name"@, Tree::Text(f.name)),
            ("source_path"@, Tree::Text(f.source_path)),
        ],
    )
}

/// A field as JSON.
pub(crate) fn field_to_json(f: &FieldSpec) -> (r: Json)
    ensures
        r@ == field_json(f@),
{
    let mut es = no_entries();
    push(&mut es, "fast", Json::Bool(f.fast));
    push(&mut es, "ignore_malformed", Json::Bool(f.ignore_malformed));
    push(&mut es, "indexed", Json::Bool(f.indexed));
    push(&mut es, "kind", kind_to_json(&f.kind));
    push(&mut es, "name", Json::Text(f.name.clone()));
    push(&mut es, "source_path", Json::Text(f.source_path.clone()));
    assert(value::entries_of(es@) =~= field_json(f@)->Object_0);
    Json::Object(es)
}

/// The keys of a field.
pub open spec fn field_keys() -> Seq<Seq<char>> {
    seq!["name"@, "source_path"@, "kind"@, "indexed"@, "fast"@, "ignore_malformed"@]
}

/// The kind of an object's field.
pub open spec fn needed_kind(es: Seq<(Seq<char>, Tree)>) -> Result<FieldKindV, Failure> {
    match fields::present(es, "kind"@) {
        None => Err(fields::missing_key("field"@, "kind"@)),
        Some(t) => kind_in(t),
    }
}

/// The field of a JSON value: its source path is its name, it is indexed,
/// and neither fast nor lenient, where it does not say.
pub open spec fn field_in(t: Tree) -> Result<FieldSpecV, Failure> {
    let w = "field"@;
    match fields::object_in(t, w, field_keys()) {
        Err(e) => Err(e),
        Ok(es) => match fields::needed_text(es, w, "name"@) {
            Err(e) => Err(e),
            Ok(name) => match fields::text_in(es, w, "source_path"@) {
                Err(e) => Err(e),
                Ok(path) => match needed_kind(es) {
                    Err(e) => Err(e),
                    Ok(kind) => match fields::bool_in(es, w, "indexed"@, true) {
                        Err(e) => Err(e),
                        Ok(indexed) => match fields::bool_in(es, w, "fast"@, false) {
                            Err(e) => Err(e),
                            Ok(fast) => match fields::bool_in(es, w, "ignore_malformed"@, false) {
                                Err(e) => Err(e),
                                Ok(ignore_malformed) => Ok(
                                    FieldSpecV {
                                        name,
                                        source_path: match path {
                                            Some(p) => p,
                                            None => name,
                                        },
                                        kind,
                                        indexed,
                                        fast,
                                        ignore_malformed,
                                    },
                                ),
                            },
                        },
                    },
                },
            },
        },
    }
}

/// The field of a JSON value.
pub fn field_from_json(v: &Json) -> (r: Result<FieldSpec, ServiceError>)
    ensures
        match r {
            Ok(f) => field_in(v@) == Ok::<FieldSpecV, Failure>(f@),
            Err(e) => field_in(v@) == Err::<FieldSpecV, Failure>(e@),
        },
{
    let allowed = ["name", "source_path", "kind", "indexed", "fast", "ignore_malformed"];
    assert(fields::strs(allowed@) =~= field_keys());
    let o = match Obj::new(v, "field", &allowed) {
        Ok(o) => o,
        Err(e) => {
            return Err(e);
        },
    };
    let name = match o.required_string("name") {
        Ok(s) => s,
        Err(e) => {
            return Err(e);
        },
    };
    let source_path = match o.string("source_path") {
        Ok(Some(s)) => s,
        Ok(None) => name.clone(),
        Err(e) => {
            return Err(e);
        },
    };
    let kind = match o.get("kind") {
        None => {
            return Err(o.missing("kind"));
        },
        Some(k) => match kind_from_json(k) {
            Ok(k) => k,
            Err(e) => {
                return Err(e);
            },
        },
    };
    let indexed = match o.bool("indexed", true) {
        Ok(b) => b,
        Err(e) => {
            return Err(e);
        },
    };
    let fast = match o.bool("fast", false) {
        Ok(b) => b,
        Err(e) => {
            return Err(e);
        },
    };
    let ignore_malformed = match o.bool("ignore_malformed", false) {
        Ok(b) => b,
        Err(e) => {
            return Err(e);
        },
    };
    Ok(FieldSpec { name, source_path, kind, indexed, fast, ignore_malformed })
}

/// A vector index as JSON.
pub open spec fn index_json(i: VectorIndexSpec) -> Tree {
    match i {
        VectorIndexSpec::Auto => Tree::Text("auto"@),
        VectorIndexSpec::Unindexed => Tree::Text("none"@),
        VectorIndexSpec::IvfPq { num_partitions, num_sub_vectors, num_bits } => Tree::Object(
            seq![
                (
                    "ivf_pq"@,
                    Tree::Object(
                        seq![
                            ("num_bits"@, Tree::Number(Num::Unsigned(num_bits as u64))),
                            ("num_partitions"@, opt_number(num_partitions)),
                            ("num_sub_vectors"@, opt_number(num_sub_vectors)),
                        ],
                    ),
                ),
            ],
        ),
        VectorIndexSpec::IvfRq { num_partitions, num_bits } => Tree::Object(
            seq![
                (
                    "ivf_rq"@,
                    Tree::Object(
                        seq![
                            ("num_bits"@, Tree::Number(Num::Unsigned(num_bits as u64))),
                            ("num_partitions"@, opt_number(num_partitions)),
                        ],
                    ),
                ),
            ],
        ),
        VectorIndexSpec::IvfHnswSq { num_partitions } => Tree::Object(
            seq![
                (
                    "ivf_hnsw_sq"@,
                    Tree::Object(seq![("num_partitions"@, opt_number(num_partitions))]),
                ),
            ],
        ),
    }
}

fn index_to_json(i: &VectorIndexSpec) -> (r: Json)
    ensures
        r@ == index_json(*i),
{
    match i {
        VectorIndexSpec::Auto => value::string("auto"),
        VectorIndexSpec::Unindexed => value::string("none"),
        VectorIndexSpec::IvfPq { num_partitions, num_sub_vectors, num_bits } => {
            let mut es = no_entries();
            push(&mut es, "num_bits", number(*num_bits as u64));
            push(&mut es, "num_partitions", opt_to_json(*num_partitions));
            push(&mut es, "num_sub_vectors", opt_to_json(*num_sub_vectors));
            assert(value::entries_of(es@) =~= index_json(*i)->Object_0[0].1->Object_0);
            tag("ivf_pq", es)
        },
        VectorIndexSpec::IvfRq { num_partitions, num_bits } => {
            let mut es = no_entries();
            push(&mut es, "num_bits", number(*num_bits as u64));
            push(&mut es, "num_partitions", opt_to_json(*num_partitions));
            assert(value::entries_of(es@) =~= index_json(*i)->Object_0[0].1->Object_0);
            tag("ivf_rq", es)
        },
        VectorIndexSpec::IvfHnswSq { num_partitions } => {
            let mut es = no_entries();
            push(&mut es, "num_partitions", opt_to_json(*num_partitions));
            assert(value::entries_of(es@) =~= index_json(*i)->Object_0[0].1->Object_0);
            tag("ivf_hnsw_sq", es)
        },
    }
}

/// The settings of a product-quantized index.
pub open spec fn ivf_pq_in(body: Tree) -> Result<VectorIndexSpec, Failure> {
    let w = "ivf_pq"@;
    match fields::object_in(body, w, seq!["num_partitions"@, "num_sub_vectors"@, "num_bits"@]) {
        Err(e) => Err(e),
        Ok(es) => match fields::u32_in(es, w, "num_partitions"@) {
            Err(e) => Err(e),
            Ok(num_partitions) => match fields::u32_in(es, w, "num_sub_vectors"@) {
                Err(e) => Err(e),
                Ok(num_sub_vectors) => match fields::u8_in(es, w, "num_bits"@, 8) {
                    Err(e) => Err(e),
                    Ok(num_bits) => Ok(
                        VectorIndexSpec::IvfPq { num_partitions, num_sub_vectors, num_bits },
                    ),
                },
            },
        },
    }
}

/// The settings of a rotation-quantized index.
pub open spec fn ivf_rq_in(body: Tree) -> Result<VectorIndexSpec, Failure> {
    let w = "ivf_rq"@;
    match fields::object_in(body, w, seq!["num_partitions"@, "num_bits"@]) {
        Err(e) => Err(e),
        Ok(es) => match fields::u32_in(es, w, "num_partitions"@) {
            Err(e) => Err(e),
            Ok(num_partitions) => match fields::u8_in(es, w, "num_bits"@, 1) {
                Err(e) => Err(e),
                Ok(num_bits) => Ok(VectorIndexSpec::IvfRq { num_partitions, num_bits }),
            },
        },
    }
}

/// The settings of a graph index.
pub open spec fn ivf_hnsw_sq_in(body: Tree) -> Result<VectorIndexSpec, Failure> {
    let w = "ivf_hnsw_sq"@;
    match fields::object_in(body, w, seq!["num_partitions"@]) {
        Err(e) => Err(e),
        Ok(es) => match fields::u32_in(es, w, "num_partitions"@) {
            Err(e) => Err(e),
            Ok(num_partitions) => Ok(VectorIndexSpec::IvfHnswSq { num_partitions }),
        },
    }
}

/// Whether settings are an empty object.
pub open spec fn no_settings(t: Tree) -> bool {
    t matches Tree::Object(es) && es.len() == 0
}

/// The vector index of a JSON value.
pub open spec fn index_in(t: Tree) -> Result<VectorIndexSpec, Failure> {
    match tag_in(t, "vector index"@) {
        Err(e) => Err(e),
        Ok((name, body)) => {
            let b = settings(body);
            if name == "auto"@ && no_settings(b) {
                Ok(VectorIndexSpec::Auto)
            } else if name == "none"@ && no_settings(b) {
                Ok(VectorIndexSpec::Unindexed)
            } else if name == "ivf_pq"@ {
                ivf_pq_in(b)
            } else if name == "ivf_rq"@ {
                ivf_rq_in(b)
            } else if name == "ivf_hnsw_sq"@ {
                ivf_hnsw_sq_in(b)
            } else {
                Err(fields::invalid("unknown vector index "@ + name))
            }
        },
    }
}

fn read_ivf_pq(body: &Json) -> (r: Result<VectorIndexSpec, ServiceError>)
    ensures
        match r {
            Ok(i) => ivf_pq_in(body@) == Ok::<VectorIndexSpec, Failure>(i),
            Err(e) => ivf_pq_in(body@) == Err::<VectorIndexSpec, Failure>(e@),
        },
{
    let allowed = ["num_partitions", "num_sub_vectors", "num_bits"];
    assert(fields::strs(allowed@) =~= seq!["num_partitions"@, "num_sub_vectors"@, "num_bits"@]);
    let o = match Obj::new(body, "ivf_pq", &allowed) {
        Ok(o) => o,
        Err(e) => {
            return Err(e);
        },
    };
    let num_partitions = match o.u32("num_partitions") {
        Ok(n) => n,
        Err(e) => {
            return Err(e);
        },
    };
    let num_sub_vectors = match o.u32("num_sub_vectors") {
        Ok(n) => n,
        Err(e) => {
            return Err(e);
        },
    };
    match o.u8("num_bits", 8) {
        Ok(num_bits) => Ok(VectorIndexSpec::IvfPq { num_partitions, num_sub_vectors, num_bits }),
        Err(e) => Err(e),
    }
}

fn read_ivf_rq(body: &Json) -> (r: Result<VectorIndexSpec, ServiceError>)
    ensures
        match r {
            Ok(i) => ivf_rq_in(body@) == Ok::<VectorIndexSpec, Failure>(i),
            Err(e) => ivf_rq_in(body@) == Err::<VectorIndexSpec, Failure>(e@),
        },
{
    let allowed = ["num_partitions", "num_bits"];
    assert(fields::strs(allowed@) =~= seq!["num_partitions"@, "num_bits"@]);
    let o = match Obj::new(body, "ivf_rq", &allowed) {
        Ok(o) => o,
        Err(e) => {
            return Err(e);
        },
    };
    let num_partitions = match o.u32("num_partitions") {
        Ok(n) => n,
        Err(e) => {
            return Err(e);
        },
    };
    match o.u8("num_bits", 1) {
        Ok(num_bits) => Ok(VectorIndexSpec::IvfRq { num_partitions, num_bits }),
        Err(e) => Err(e),
    }
}

fn read_ivf_hnsw_sq(body: &Json) -> (r: Result<VectorIndexSpec, ServiceError>)
    ensures
        match r {
            Ok(i) => ivf_hnsw_sq_in(body@) == Ok::<VectorIndexSpec, Failure>(i),
            Err(e) => ivf_hnsw_sq_in(body@) == Err::<VectorIndexSpec, Failure>(e@),
        },
{
    let allowed = ["num_partitions"];
    assert(fields::strs(allowed@) =~= seq!["num_partitions"@]);
    let o = match Obj::new(body, "ivf_hnsw_sq", &allowed) {
        Ok(o) => o,
        Err(e) => {
            return Err(e);
        },
    };
    match o.u32("num_partitions") {
        Ok(num_partitions) => Ok(VectorIndexSpec::IvfHnswSq { num_partitions }),
        Err(e) => Err(e),
    }
}

fn index_from_json(v: &Json) -> (r: Result<VectorIndexSpec, ServiceError>)
    ensures
        match r {
            Ok(i) => index_in(v@) == Ok::<VectorIndexSpec, Failure>(i),
            Err(e) => index_in(v@) == Err::<VectorIndexSpec, Failure>(e@),
        },
{
    let (name, body) = match tagged(v, "vector index") {
        Ok(t) => t,
        Err(e) => {
            return Err(e);
        },
    };
    let b = copy_settings(body);
    let bare = match &b {
        Json::Object(es) => es.len() == 0,
        _ => false,
    };
    if text::same(name, "auto") && bare {
        Ok(VectorIndexSpec::Auto)
    } else if text::same(name, "none") && bare {
        Ok(VectorIndexSpec::Unindexed)
    } else if text::same(name, "ivf_pq") {
        read_ivf_pq(&b)
    } else if text::same(name, "ivf_rq") {
        read_ivf_rq(&b)
    } else if text::same(name, "ivf_hnsw_sq") {
        read_ivf_hnsw_sq(&b)
    } else {
        Err(error::invalid(text::cat2("unknown vector index ", name)))
    }
}

/// A graph as JSON.
pub open spec fn hnsw_json(h: HnswParams) -> Tree {
    Tree::Object(
        seq![
            ("ef_construct"@, Tree::Number(Num::Unsigned(h.ef_construct as u64))),
            (
                "full_scan_threshold_kb"@,
                Tree::Number(Num::Unsigned(h.full_scan_threshold_kb as u64)),
            ),
            ("m"@, Tree::Number(Num::Unsigned(h.m as u64))),
            ("on_disk"@, Tree::Bool(h.on_disk)),
            ("payload_m"@, opt_number(h.payload_m)),
        ],
    )
}

fn hnsw_to_json(h: &HnswParams) -> (r: Json)
    ensures
        r@ == hnsw_json(*h),
{
    let mut es = no_entries();
    push(&mut es, "ef_construct", number(h.ef_construct as u64));
    push(&mut es, "full_scan_threshold_kb", number(h.full_scan_threshold_kb as u64));
    push(&mut es, "m", number(h.m as u64));
    push(&mut es, "on_disk", Json::Bool(h.on_disk));
    push(&mut es, "payload_m", opt_to_json(h.payload_m));
    assert(value::entries_of(es@) =~= hnsw_json(*h)->Object_0);
    Json::Object(es)
}

/// A number, else a default.
pub open spec fn or(n: Option<u32>, default: u32) -> u32 {
    match n {
        Some(n) => n,
        None => default,
    }
}

/// A number, else a default.
pub(crate) fn num_or(n: Option<u32>, default: u32) -> (r: u32)
    ensures
        r == or(n, default),
{
    match n {
        Some(n) => n,
        None => default,
    }
}

/// The keys of a graph.
pub open spec fn hnsw_keys() -> Seq<Seq<char>> {
    seq!["m"@, "ef_construct"@, "full_scan_threshold_kb"@, "payload_m"@, "on_disk"@]
}

/// The graph of a JSON value, with defaults where it does not say.
pub open spec fn hnsw_in(t: Tree, d: HnswParams) -> Result<HnswParams, Failure> {
    let w = "hnsw"@;
    match fields::object_in(t, w, hnsw_keys()) {
        Err(e) => Err(e),
        Ok(es) => match fields::u32_in(es, w, "m"@) {
            Err(e) => Err(e),
            Ok(m) => match fields::u32_in(es, w, "ef_construct"@) {
                Err(e) => Err(e),
                Ok(ef) => match fields::u32_in(es, w, "full_scan_threshold_kb"@) {
                    Err(e) => Err(e),
                    Ok(full) => match fields::u32_in(es, w, "payload_m"@) {
                        Err(e) => Err(e),
                        Ok(payload) => match fields::bool_in(es, w, "on_disk"@, d.on_disk) {
                            Err(e) => Err(e),
                            Ok(on_disk) => Ok(
                                HnswParams {
                                    m: or(m, d.m),
                                    ef_construct: or(ef, d.ef_construct),
                                    full_scan_threshold_kb: or(full, d.full_scan_threshold_kb),
                                    payload_m: if payload is Some {
                                        payload
                                    } else {
                                        d.payload_m
                                    },
                                    on_disk,
                                },
                            ),
                        },
                    },
                },
            },
        },
    }
}

fn hnsw_from_json(v: &Json, d: &HnswParams) -> (r: Result<HnswParams, ServiceError>)
    ensures
        match r {
            Ok(h) => hnsw_in(v@, *d) == Ok::<HnswParams, Failure>(h),
            Err(e) => hnsw_in(v@, *d) == Err::<HnswParams, Failure>(e@),
        },
{
    let allowed = ["m", "ef_construct", "full_scan_threshold_kb", "payload_m", "on_disk"];
    assert(fields::strs(allowed@) =~= hnsw_keys());
    let o = match Obj::new(v, "hnsw", &allowed) {
        Ok(o) => o,
        Err(e) => {
            return Err(e);
        },
    };
    let m = match o.u32("m") {
        Ok(n) => num_or(n, d.m),
        Err(e) => {
            return Err(e);
        },
    };
    let ef_construct = match o.u32("ef_construct") {
        Ok(n) => num_or(n, d.ef_construct),
        Err(e) => {
            return Err(e);
        },
    };
    let full_scan_threshold_kb = match o.u32("full_scan_threshold_kb") {
        Ok(n) => num_or(n, d.full_scan_threshold_kb),
        Err(e) => {
            return Err(e);
        },
    };
    let payload_m = match o.u32("payload_m") {
        Ok(n) => if n.is_some() {
            n
        } else {
            d.payload_m
        },
        Err(e) => {
            return Err(e);
        },
    };
    match o.bool("on_disk", d.on_disk) {
        Ok(on_disk) => Ok(
            HnswParams { m, ef_construct, full_scan_threshold_kb, payload_m, on_disk },
        ),
        Err(e) => Err(e),
    }
}

/// A compression as JSON, null without one.
pub open spec fn quantization_json(q: Option<Quantization>) -> Tree {
    match q {
        None => Tree::Null,
        Some(Quantization::Scalar { quantile_ppm, always_ram }) => Tree::Object(
            seq![
                (
                    "scalar"@,
                    Tree::Object(
                        seq![
                            ("always_ram"@, Tree::Bool(always_ram)),
                            ("quantile_ppm"@, opt_number(quantile_ppm)),
                        ],
                    ),
                ),
            ],
        ),
        Some(Quantization::Product { compression_ratio, always_ram }) => Tree::Object(
            seq![
                (
                    "product"@,
                    Tree::Object(
                        seq![
                            ("always_ram"@, Tree::Bool(always_ram)),
                            (
                                "compression_ratio"@,
                                Tree::Number(Num::Unsigned(compression_ratio as u64)),
                            ),
                        ],
                    ),
                ),
            ],
        ),
        Some(Quantization::Binary { always_ram }) => Tree::Object(
            seq![("binary"@, Tree::Object(seq![("always_ram"@, Tree::Bool(always_ram))]))],
        ),
    }
}

fn quantization_to_json(q: &Option<Quantization>) -> (r: Json)
    ensures
        r@ == quantization_json(*q),
{
    match q {
        None => Json::Null,
        Some(Quantization::Scalar { quantile_ppm, always_ram }) => {
            let mut es = no_entries();
            push(&mut es, "always_ram", Json::Bool(*always_ram));
            push(&mut es, "quantile_ppm", opt_to_json(*quantile_ppm));
            assert(value::entries_of(es@) =~= quantization_json(*q)->Object_0[0].1->Object_0);
            tag("scalar", es)
        },
        Some(Quantization::Product { compression_ratio, always_ram }) => {
            let mut es = no_entries();
            push(&mut es, "always_ram", Json::Bool(*always_ram));
            push(&mut es, "compression_ratio", number(*compression_ratio as u64));
            assert(value::entries_of(es@) =~= quantization_json(*q)->Object_0[0].1->Object_0);
            tag("product", es)
        },
        Some(Quantization::Binary { always_ram }) => {
            let mut es = no_entries();
            push(&mut es, "always_ram", Json::Bool(*always_ram));
            assert(value::entries_of(es@) =~= quantization_json(*q)->Object_0[0].1->Object_0);
            tag("binary", es)
        },
    }
}

/// The settings of a scalar compression.
pub open spec fn scalar_in(body: Tree) -> Result<Quantization, Failure> {
    let w = "scalar"@;
    match fields::object_in(body, w, seq!["quantile_ppm"@, "always_ram"@]) {
        Err(e) => Err(e),
        Ok(es) => match fields::u32_in(es, w, "quantile_ppm"@) {
            Err(e) => Err(e),
            Ok(quantile_ppm) => match fields::bool_in(es, w, "always_ram"@, false) {
                Err(e) => Err(e),
                Ok(always_ram) => Ok(Quantization::Scalar { quantile_ppm, always_ram }),
            },
        },
    }
}

/// The settings of a product compression.
pub open spec fn product_in(body: Tree) -> Result<Quantization, Failure> {
    let w = "product"@;
    match fields::object_in(body, w, seq!["compression_ratio"@, "always_ram"@]) {
        Err(e) => Err(e),
        Ok(es) => match fields::u32_in(es, w, "compression_ratio"@) {
            Err(e) => Err(e),
            Ok(None) => Err(fields::missing_key(w, "compression_ratio"@)),
            Ok(Some(compression_ratio)) => match fields::bool_in(es, w, "always_ram"@, false) {
                Err(e) => Err(e),
                Ok(always_ram) => Ok(Quantization::Product { compression_ratio, always_ram }),
            },
        },
    }
}

/// The settings of a binary compression.
pub open spec fn binary_in(body: Tree) -> Result<Quantization, Failure> {
    let w = "binary"@;
    match fields::object_in(body, w, seq!["always_ram"@]) {
        Err(e) => Err(e),
        Ok(es) => match fields::bool_in(es, w, "always_ram"@, false) {
            Err(e) => Err(e),
            Ok(always_ram) => Ok(Quantization::Binary { always_ram }),
        },
    }
}

/// The compression of a JSON value.
pub open spec fn quantization_in(t: Tree) -> Result<Quantization, Failure> {
    match tag_in(t, "quantization"@) {
        Err(e) => Err(e),
        Ok((name, body)) => {
            let b = settings(body);
            if name == "scalar"@ {
                scalar_in(b)
            } else if name == "product"@ {
                product_in(b)
            } else if name == "binary"@ {
                binary_in(b)
            } else {
                Err(fields::invalid("unknown quantization "@ + name))
            }
        },
    }
}

fn read_scalar(body: &Json) -> (r: Result<Quantization, ServiceError>)
    ensures
        match r {
            Ok(q) => scalar_in(body@) == Ok::<Quantization, Failure>(q),
            Err(e) => scalar_in(body@) == Err::<Quantization, Failure>(e@),
        },
{
    let allowed = ["quantile_ppm", "always_ram"];
    assert(fields::strs(allowed@) =~= seq!["quantile_ppm"@, "always_ram"@]);
    let o = match Obj::new(body, "scalar", &allowed) {
        Ok(o) => o,
        Err(e) => {
            return Err(e);
        },
    };
    let quantile_ppm = match o.u32("quantile_ppm") {
        Ok(n) => n,
        Err(e) => {
            return Err(e);
        },
    };
    match o.bool("always_ram", false) {
        Ok(always_ram) => Ok(Quantization::Scalar { quantile_ppm, always_ram }),
        Err(e) => Err(e),
    }
}

fn read_product(body: &Json) -> (r: Result<Quantization, ServiceError>)
    ensures
        match r {
            Ok(q) => product_in(body@) == Ok::<Quantization, Failure>(q),
            Err(e) => product_in(body@) == Err::<Quantization, Failure>(e@),
        },
{
    let allowed = ["compression_ratio", "always_ram"];
    assert(fields::strs(allowed@) =~= seq!["compression_ratio"@, "always_ram"@]);
    let o = match Obj::new(body, "product", &allowed) {
        Ok(o) => o,
        Err(e) => {
            return Err(e);
        },
    };
    let compression_ratio: u32 = match o.u32("compression_ratio") {
        Ok(Some(n)) => n,
        Ok(None) => {
            return Err(o.missing("compression_ratio"));
        },
        Err(e) => {
            return Err(e);
        },
    };
    match o.bool("always_ram", false) {
        Ok(always_ram) => Ok(Quantization::Product { compression_ratio, always_ram }),
        Err(e) => Err(e),
    }
}

fn read_binary(body: &Json) -> (r: Result<Quantization, ServiceError>)
    ensures
        match r {
            Ok(q) => binary_in(body@) == Ok::<Quantization, Failure>(q),
            Err(e) => binary_in(body@) == Err::<Quantization, Failure>(e@),
        },
{
    let allowed = ["always_ram"];
    assert(fields::strs(allowed@) =~= seq!["always_ram"@]);
    let o = match Obj::new(body, "binary", &allowed) {
        Ok(o) => o,
        Err(e) => {
            return Err(e);
        },
    };
    match o.bool("always_ram", false) {
        Ok(always_ram) => Ok(Quantization::Binary { always_ram }),
        Err(e) => Err(e),
    }
}

fn quantization_from_json(v: &Json) -> (r: Result<Quantization, ServiceError>)
    ensures
        match r {
            Ok(q) => quantization_in(v@) == Ok::<Quantization, Failure>(q),
            Err(e) => quantization_in(v@) == Err::<Quantization, Failure>(e@),
        },
{
    let (name, body) = match tagged(v, "quantization") {
        Ok(t) => t,
        Err(e) => {
            return Err(e);
        },
    };
    let b = copy_settings(body);
    if text::same(name, "scalar") {
        read_scalar(&b)
    } else if text::same(name, "product") {
        read_product(&b)
    } else if text::same(name, "binary") {
        read_binary(&b)
    } else {
        Err(error::invalid(text::cat2("unknown quantization ", name)))
    }
}

/// A dense vector as JSON.
pub open spec fn vector_json(v: VectorSpecV) -> Tree {
    Tree::Object(
        seq![
            ("dim"@, Tree::Number(Num::Unsigned(v.dim as u64))),
            ("distance"@, Tree::Text(distance_text(v.distance))),
            ("element"@, Tree::Text("f32"@)),
            ("hnsw"@, hnsw_json(v.hnsw)),
            ("index"@, index_json(v.index)),
            ("name"@, Tree::Text(v.name)),
            ("quantization"@, quantization_json(v.quantization)),
        ],
    )
}

/// A dense vector as JSON.
pub(crate) fn vector_to_json(v: &VectorSpec) -> (r: Json)
    ensures
        r@ == vector_json(v@),
{
    let mut es = no_entries();
    push(&mut es, "dim", number(v.dim as u64));
    push(&mut es, "distance", value::string(distance_name(v.distance)));
    push(&mut es, "element", value::string("f32"));
    push(&mut es, "hnsw", hnsw_to_json(&v.hnsw));
    push(&mut es, "index", index_to_json(&v.index));
    push(&mut es, "name", Json::Text(v.name.clone()));
    push(&mut es, "quantization", quantization_to_json(&v.quantization));
    assert(value::entries_of(es@) =~= vector_json(v@)->Object_0);
    Json::Object(es)
}

/// The keys of a dense vector.
pub open spec fn vector_keys() -> Seq<Seq<char>> {
    seq!["name"@, "dim"@, "distance"@, "element"@, "index"@, "hnsw"@, "quantization"@]
}

/// The element of an object's vector: 32-bit floats.
pub open spec fn element_in(es: Seq<(Seq<char>, Tree)>) -> Result<VectorElement, Failure> {
    match fields::text_in(es, "vector"@, "element"@) {
        Err(e) => Err(e),
        Ok(None) => Ok(VectorElement::F32),
        Ok(Some(s)) => if s == "f32"@ {
            Ok(VectorElement::F32)
        } else {
            Err(fields::invalid("unknown vector element "@ + s))
        },
    }
}

/// The index of an object's vector, else automatic.
pub open spec fn own_index(es: Seq<(Seq<char>, Tree)>) -> Result<VectorIndexSpec, Failure> {
    match fields::present(es, "index"@) {
        None => Ok(VectorIndexSpec::Auto),
        Some(t) => index_in(t),
    }
}

/// The graph of an object's vector, else the default.
pub open spec fn own_hnsw(es: Seq<(Seq<char>, Tree)>, d: HnswParams) -> Result<
    HnswParams,
    Failure,
> {
    match fields::present(es, "hnsw"@) {
        None => Ok(d),
        Some(t) => hnsw_in(t, d),
    }
}

/// The compression of an object's vector, if it has one.
pub open spec fn own_quantization(es: Seq<(Seq<char>, Tree)>) -> Result<
    Option<Quantization>,
    Failure,
> {
    match fields::present(es, "quantization"@) {
        None => Ok(None),
        Some(t) => match quantization_in(t) {
            Ok(q) => Ok(Some(q)),
            Err(e) => Err(e),
        },
    }
}

/// What a dense vector's object says once its dimension is there.
pub open spec fn vector_parts(es: Seq<(Seq<char>, Tree)>, d: HnswParams) -> Result<
    VectorSpecV,
    Failure,
> {
    let w = "vector"@;
    match fields::needed_text(es, w, "distance"@) {
        Err(e) => Err(e),
        Ok(distance) => match element_in(es) {
            Err(e) => Err(e),
            Ok(element) => match fields::needed_text(es, w, "name"@) {
                Err(e) => Err(e),
                Ok(name) => match fields::u32_in(es, w, "dim"@) {
                    Err(e) => Err(e),
                    Ok(dim) => match distance_in(distance) {
                        None => Err(fields::invalid("unknown distance "@ + distance)),
                        Some(distance) => match own_index(es) {
                            Err(e) => Err(e),
                            Ok(index) => match own_hnsw(es, d) {
                                Err(e) => Err(e),
                                Ok(hnsw) => match own_quantization(es) {
                                    Err(e) => Err(e),
                                    Ok(quantization) => Ok(
                                        VectorSpecV {
                                            name,
                                            dim: or(dim, 0),
                                            distance,
                                            element,
                                            index,
                                            hnsw,
                                            quantization,
                                        },
                                    ),
                                },
                            },
                        },
                    },
                },
            },
        },
    }
}

/// The dense vector of a JSON value: 32-bit floats, an automatic index, the
/// default graph and no compression where it does not say.
pub open spec fn vector_in(t: Tree, d: HnswParams) -> Result<VectorSpecV, Failure> {
    match fields::object_in(t, "vector"@, vector_keys()) {
        Err(e) => Err(e),
        Ok(es) => if fields::present(es, "dim"@) is None {
            Err(fields::missing_key("vector"@, "dim"@))
        } else {
            vector_parts(es, d)
        },
    }
}

/// The dense vector of a JSON value.
pub fn vector_from_json(v: &Json, d: &HnswParams) -> (r: Result<VectorSpec, ServiceError>)
    ensures
        match r {
            Ok(s) => vector_in(v@, *d) == Ok::<VectorSpecV, Failure>(s@),
            Err(e) => vector_in(v@, *d) == Err::<VectorSpecV, Failure>(e@),
        },
{
    let allowed = ["name", "dim", "distance", "element", "index", "hnsw", "quantization"];
    assert(fields::strs(allowed@) =~= vector_keys());
    let o = match Obj::new(v, "vector", &allowed) {
        Ok(o) => o,
        Err(e) => {
            return Err(e);
        },
    };
    if o.get("dim").is_none() {
        return Err(o.missing("dim"));
    }
    let distance = match o.required_string("distance") {
        Ok(s) => s,
        Err(e) => {
            return Err(e);
        },
    };
    let element = match o.string("element") {
        Ok(None) => VectorElement::F32,
        Ok(Some(s)) => if text::same(&s, "f32") {
            VectorElement::F32
        } else {
            return Err(error::invalid(text::cat2("unknown vector element ", &s)));
        },
        Err(e) => {
            return Err(e);
        },
    };
    let name = match o.required_string("name") {
        Ok(s) => s,
        Err(e) => {
            return Err(e);
        },
    };
    let dim = match o.u32("dim") {
        Ok(n) => num_or(n, 0),
        Err(e) => {
            return Err(e);
        },
    };
    let metric = match parse_distance(&distance) {
        Some(d) => d,
        None => {
            return Err(error::invalid(text::cat2("unknown distance ", &distance)));
        },
    };
    let index = match o.get("index") {
        None => VectorIndexSpec::Auto,
        Some(i) => match index_from_json(i) {
            Ok(i) => i,
            Err(e) => {
                return Err(e);
            },
        },
    };
    let hnsw = match o.get("hnsw") {
        None => *d,
        Some(h) => match hnsw_from_json(h, d) {
            Ok(h) => h,
            Err(e) => {
                return Err(e);
            },
        },
    };
    let quantization = match o.get("quantization") {
        None => None,
        Some(q) => match quantization_from_json(q) {
            Ok(q) => Some(q),
            Err(e) => {
                return Err(e);
            },
        },
    };
    Ok(VectorSpec { name, dim, distance: metric, element, index, hnsw, quantization })
}

/// A sparse vector as JSON.
pub open spec fn sparse_json(s: SparseSpecV) -> Tree {
    Tree::Object(
        seq![
            (
                "modifier"@,
                Tree::Text(
                    match s.modifier {
                        SparseModifier::Plain => "none"@,
                        SparseModifier::Idf => "idf"@,
                    },
                ),
            ),
            ("name"@, Tree::Text(s.name)),
        ],
    )
}

/// A sparse vector as JSON.
pub(crate) fn sparse_to_json(s: &SparseVectorSpec) -> (r: Json)
    ensures
        r@ == sparse_json(s@),
{
    let mut es = no_entries();
    let modifier: &str = match s.modifier {
        SparseModifier::Plain => "none",
        SparseModifier::Idf => "idf",
    };
    push(&mut es, "modifier", value::string(modifier));
    push(&mut es, "name", Json::Text(s.name.clone()));
    assert(value::entries_of(es@) =~= sparse_json(s@)->Object_0);
    Json::Object(es)
}

/// The sparse vector of a JSON value: plain where it does not say.
pub open spec fn sparse_in(t: Tree) -> Result<SparseSpecV, Failure> {
    let w = "sparse vector"@;
    match fields::object_in(t, w, seq!["name"@, "modifier"@]) {
        Err(e) => Err(e),
        Ok(es) => match fields::text_in(es, w, "modifier"@) {
            Err(e) => Err(e),
            Ok(m) => {
                let named_none = match m {
                    None => true,
                    Some(s) => s == "none"@,
                };
                if named_none || m == Some("idf"@) {
                    match fields::needed_text(es, w, "name"@) {
                        Err(e) => Err(e),
                        Ok(name) => Ok(
                            SparseSpecV {
                                name,
                                modifier: if named_none {
                                    SparseModifier::Plain
                                } else {
                                    SparseModifier::Idf
                                },
                            },
                        ),
                    }
                } else {
                    Err(fields::invalid("unknown sparse modifier "@ + m->0))
                }
            },
        },
    }
}

/// The sparse vector of a JSON value.
pub(crate) fn sparse_from_json(v: &Json) -> (r: Result<SparseVectorSpec, ServiceError>)
    ensures
        match r {
            Ok(s) => sparse_in(v@) == Ok::<SparseSpecV, Failure>(s@),
            Err(e) => sparse_in(v@) == Err::<SparseSpecV, Failure>(e@),
        },
{
    let allowed = ["name", "modifier"];
    assert(fields::strs(allowed@) =~= seq!["name"@, "modifier"@]);
    let o = match Obj::new(v, "sparse vector", &allowed) {
        Ok(o) => o,
        Err(e) => {
            return Err(e);
        },
    };
    let modifier = match o.string("modifier") {
        Ok(None) => SparseModifier::Plain,
        Ok(Some(s)) => if text::same(&s, "none") {
            SparseModifier::Plain
        } else if text::same(&s, "idf") {
            SparseModifier::Idf
        } else {
            return Err(error::invalid(text::cat2("unknown sparse modifier ", &s)));
        },
        Err(e) => {
            return Err(e);
        },
    };
    match o.required_string("name") {
        Ok(name) => Ok(SparseVectorSpec { name, modifier }),
        Err(e) => Err(e),
    }
}

} // verus!
