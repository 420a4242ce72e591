//! A collection's schema as JSON.

use crate::collection;
use crate::collection::{
    CollectionSchema, DynamicMapping, FieldSpec, FieldSpecV, HnswParams, SchemaV, SparseSpecV,
    SparseVectorSpec, VectorSpec, VectorSpecV,
};
use crate::error;
use crate::error::{Failure, ServiceError};
use crate::json::fields;
use crate::json::fields::Obj;
use crate::json::schema;
use crate::json::schema::SchemaDefaults;
use crate::json::value;
use crate::json::value::{Json, Num, Number, Tree};
use crate::text;
use vstd::prelude::*;
use vstd::string::*;

verus! {

broadcast use {crate::json::value::view_object, crate::json::value::view_array};

/// The items of a list that may be absent.
pub open spec fn opt_items(v: Option<&Vec<Json>>) -> Seq<Tree> {
    match v {
        Some(v) => value::items_of(v@),
        None => Seq::empty(),
    }
}

/// Fields as JSON.
pub open spec fn field_list(s: Seq<FieldSpecV>) -> Tree {
    Tree::Array(Seq::new(s.len(), |i: int| schema::field_json(s[i])))
}

fn fields_to_json(v: &Vec<FieldSpec>) -> (r: Json)
    ensures
        r@ == field_list(collection::field_views(v@)),
{
    let mut items: Vec<Json> = Vec::new();
    let mut i: usize = 0;
    while i < v.len()
        invariant
            i <= v@.len(),
            items@.len() == i,
            forall|j: int| 0 <= j < i ==> (#[trigger] items@[j])@ == schema::field_json(v@[j]@),
        decreases v.len() - i,
    {
        items.push(schema::field_to_json(&v[i]));
        i += 1;
    }
    assert(value::items_of(items@) =~= field_list(collection::field_views(v@))->Array_0);
    Json::Array(items)
}

/// The fields of the first `n` items, or the error of the first that is
/// none.
pub open spec fn fields_in(items: Seq<Tree>, n: nat) -> Result<Seq<FieldSpecV>, Failure>
    decreases n,
{
    if n == 0 || n > items.len() {
        Ok(Seq::empty())
    } else {
        match fields_in(items, (n - 1) as nat) {
            Err(e) => Err(e),
            Ok(out) => match schema::field_in(items[n - 1]) {
                Err(e) => Err(e),
                Ok(v) => Ok(out.push(v)),
            },
        }
    }
}

proof fn fields_stay_wrong(items: Seq<Tree>, n: nat, m: nat)
    requires
        n <= m <= items.len(),
        fields_in(items, n) is Err,
    ensures
        fields_in(items, m) == fields_in(items, n),
    decreases m - n,
{
    if n < m {
        fields_stay_wrong(items, n, (m - 1) as nat);
    }
}

fn fields_from_json(list: Option<&Vec<Json>>) -> (r: Result<Vec<FieldSpec>, ServiceError>)
    ensures
        match r {
            Ok(v) => fields_in(opt_items(list), opt_items(list).len()) == Ok::<
                Seq<FieldSpecV>,
                Failure,
            >(collection::field_views(v@)),
            Err(e) => fields_in(opt_items(list), opt_items(list).len()) == Err::<
                Seq<FieldSpecV>,
                Failure,
            >(e@),
        },
{
    let mut out: Vec<FieldSpec> = Vec::new();
    assert(collection::field_views(out@) =~= Seq::empty());
    let items = match list {
        None => {
            return Ok(out);
        },
        Some(items) => items,
    };
    let ghost all = value::items_of(items@);
    let mut i: usize = 0;
    while i < items.len()
        invariant
            i <= items@.len(),
            all == value::items_of(items@),
            all == opt_items(list),
            fields_in(all, i as nat) == Ok::<Seq<FieldSpecV>, Failure>(collection::field_views(out@)),
        decreases items.len() - i,
    {
        assert(all[i as int] == items@[i as int]@);
        match schema::field_from_json(&items[i]) {
            Ok(v) => {
                let ghost was = collection::field_views(out@);
                let ghost vv = v@;
                out.push(v);
                assert(collection::field_views(out@) =~= was.push(vv));
            },
            Err(e) => {
                proof {
                    fields_stay_wrong(all, i as nat + 1, items@.len());
                }
                return Err(e);
            },
        }
        i += 1;
    }
    Ok(out)
}

/// Dense vectors as JSON.
pub open spec fn vector_list(s: Seq<VectorSpecV>) -> Tree {
    Tree::Array(Seq::new(s.len(), |i: int| schema::vector_json(s[i])))
}

fn vectors_to_json(v: &Vec<VectorSpec>) -> (r: Json)
    ensures
        r@ == vector_list(collection::vector_views(v@)),
{
    let mut items: Vec<Json> = Vec::new();
    let mut i: usize = 0;
    while i < v.len()
        invariant
            i <= v@.len(),
            items@.len() == i,
            forall|j: int| 0 <= j < i ==> (#[trigger] items@[j])@ == schema::vector_json(v@[j]@),
        decreases v.len() - i,
    {
        items.push(schema::vector_to_json(&v[i]));
        i += 1;
    }
    assert(value::items_of(items@) =~= vector_list(collection::vector_views(v@))->Array_0);
    Json::Array(items)
}

/// The dense vectors of the first `n` items, or the error of the first that is
/// none.
pub open spec fn vectors_in(items: Seq<Tree>, d: HnswParams, n: nat) -> Result<Seq<VectorSpecV>, Failure>
    decreases n,
{
    if n == 0 || n > items.len() {
        Ok(Seq::empty())
    } else {
        match vectors_in(items, d, (n - 1) as nat) {
            Err(e) => Err(e),
            Ok(out) => match schema::vector_in(items[n - 1], d) {
                Err(e) => Err(e),
                Ok(v) => Ok(out.push(v)),
            },
        }
    }
}

proof fn vectors_stay_wrong(items: Seq<Tree>, d: HnswParams, n: nat, m: nat)
    requires
        n <= m <= items.len(),
        vectors_in(items, d, n) is Err,
    ensures
        vectors_in(items, d, m) == vectors_in(items, d, n),
    decreases m - n,
{
    if n < m {
        vectors_stay_wrong(items, d, n, (m - 1) as nat);
    }
}

fn vectors_from_json(list: Option<&Vec<Json>>, d: &HnswParams) -> (r: Result<Vec<VectorSpec>, ServiceError>)
    ensures
        match r {
            Ok(v) => vectors_in(opt_items(list), *d, opt_items(list).len()) == Ok::<
                Seq<VectorSpecV>,
                Failure,
            >(collection::vector_views(v@)),
            Err(e) => vectors_in(opt_items(list), *d, opt_items(list).len()) == Err::<
                Seq<VectorSpecV>,
                Failure,
            >(e@),
        },
{
    let mut out: Vec<VectorSpec> = Vec::new();
    assert(collection::vector_views(out@) =~= Seq::empty());
    let items = match list {
        None => {
            return Ok(out);
        },
        Some(items) => items,
    };
    let ghost all = value::items_of(items@);
    let mut i: usize = 0;
    while i < items.len()
        invariant
            i <= items@.len(),
            all == value::items_of(items@),
            all == opt_items(list),
            vectors_in(all, *d, i as nat) == Ok::<Seq<VectorSpecV>, Failure>(collection::vector_views(out@)),
        decreases items.len() - i,
    {
        assert(all[i as int] == items@[i as int]@);
        match schema::vector_from_json(&items[i], d) {
            Ok(v) => {
                let ghost was = collection::vector_views(out@);
                let ghost vv = v@;
                out.push(v);
                assert(collection::vector_views(out@) =~= was.push(vv));
            },
            Err(e) => {
                proof {
                    vectors_stay_wrong(all, *d, i as nat + 1, items@.len());
                }
                return Err(e);
            },
        }
        i += 1;
    }
    Ok(out)
}

/// Sparse vectors as JSON.
pub open spec fn sparse_list(s: Seq<SparseSpecV>) -> Tree {
    Tree::Array(Seq::new(s.len(), |i: int| schema::sparse_json(s[i])))
}

fn sparses_to_json(v: &Vec<SparseVectorSpec>) -> (r: Json)
    ensures
        r@ == sparse_list(collection::sparse_views(v@)),
{
    let mut items: Vec<Json> = Vec::new();
    let mut i: usize = 0;
    while i < v.len()
        invariant
            i <= v@.len(),
            items@.len() == i,
            forall|j: int| 0 <= j < i ==> (#[trigger] items@[j])@ == schema::sparse_json(v@[j]@),
        decreases v.len() - i,
    {
        items.push(schema::sparse_to_json(&v[i]));
        i += 1;
    }
    assert(value::items_of(items@) =~= sparse_list(collection::sparse_views(v@))->Array_0);
    Json::Array(items)
}

/// The sparse vectors of the first `n` items, or the error of the first that is
/// none.
pub open spec fn sparses_in(items: Seq<Tree>, n: nat) -> Result<Seq<SparseSpecV>, Failure>
    decreases n,
{
    if n == 0 || n > items.len() {
        Ok(Seq::empty())
    } else {
        match sparses_in(items, (n - 1) as nat) {
            Err(e) => Err(e),
            Ok(out) => match schema::sparse_in(items[n - 1]) {
                Err(e) => Err(e),
                Ok(v) => Ok(out.push(v)),
            },
        }
    }
}

proof fn sparses_stay_wrong(items: Seq<Tree>, n: nat, m: nat)
    requires
        n <= m <= items.len(),
        sparses_in(items, n) is Err,
    ensures
        sparses_in(items, m) == sparses_in(items, n),
    decreases m - n,
{
    if n < m {
        sparses_stay_wrong(items, n, (m - 1) as nat);
    }
}

fn sparses_from_json(list: Option<&Vec<Json>>) -> (r: Result<Vec<SparseVectorSpec>, ServiceError>)
    ensures
        match r {
            Ok(v) => sparses_in(opt_items(list), opt_items(list).len()) == Ok::<
                Seq<SparseSpecV>,
                Failure,
            >(collection::sparse_views(v@)),
            Err(e) => sparses_in(opt_items(list), opt_items(list).len()) == Err::<
                Seq<SparseSpecV>,
                Failure,
            >(e@),
        },
{
    let mut out: Vec<SparseVectorSpec> = Vec::new();
    assert(collection::sparse_views(out@) =~= Seq::empty());
    let items = match list {
        None => {
            return Ok(out);
        },
        Some(items) => items,
    };
    let ghost all = value::items_of(items@);
    let mut i: usize = 0;
    while i < items.len()
        invariant
            i <= items@.len(),
            all == value::items_of(items@),
            all == opt_items(list),
            sparses_in(all, i as nat) == Ok::<Seq<SparseSpecV>, Failure>(collection::sparse_views(out@)),
        decreases items.len() - i,
    {
        assert(all[i as int] == items@[i as int]@);
        match schema::sparse_from_json(&items[i]) {
            Ok(v) => {
                let ghost was = collection::sparse_views(out@);
                let ghost vv = v@;
                out.push(v);
                assert(collection::sparse_views(out@) =~= was.push(vv));
            },
            Err(e) => {
                proof {
                    sparses_stay_wrong(all, i as nat + 1, items@.len());
                }
                return Err(e);
            },
        }
        i += 1;
    }
    Ok(out)
}

/// The name of what a schema does with new fields.
pub open spec fn dynamic_text(d: DynamicMapping) -> Seq<char> {
    match d {
        DynamicMapping::Strict => "strict"@,
        DynamicMapping::Ignore => "ignore"@,
        DynamicMapping::Mapped => "map"@,
    }
}

fn dynamic_name(d: DynamicMapping) -> (r: &'static str)
    ensures
        r@ == dynamic_text(d),
{
    match d {
        DynamicMapping::Strict => "strict",
        DynamicMapping::Ignore => "ignore",
        DynamicMapping::Mapped => "map",
    }
}

/// Annotations as JSON.
pub open spec fn annotations_json(s: Seq<(Seq<char>, Seq<char>)>) -> Tree {
    Tree::Object(Seq::new(s.len(), |i: int| (s[i].0, Tree::Text(s[i].1))))
}

fn annotations_to_json(v: &Vec<(String, String)>) -> (r: Json)
    ensures
        r@ == annotations_json(collection::pair_views(v@)),
{
    let mut es: Vec<(String, Json)> = Vec::new();
    let mut i: usize = 0;
    while i < v.len()
        invariant
            i <= v@.len(),
            es@.len() == i,
            forall|j: int|
                0 <= j < i ==> (#[trigger] es@[j]).0@ == v@[j].0@ && es@[j].1@ == Tree::Text(
                    v@[j].1@,
                ),
        decreases v.len() - i,
    {
        es.push((v[i].0.clone(), Json::Text(v[i].1.clone())));
        i += 1;
    }
    assert(value::entries_of(es@) =~= annotations_json(collection::pair_views(v@))->Object_0);
    Json::Object(es)
}

/// A schema as JSON, every key present.
pub open spec fn schema_json(s: SchemaV) -> Tree {
    Tree::Object(
        seq![
            ("annotations"@, annotations_json(s.annotations)),
            ("dynamic"@, Tree::Text(dynamic_text(s.dynamic))),
            ("fields"@, field_list(s.fields)),
            ("max_fields"@, Tree::Number(Num::Unsigned(s.max_fields as u64))),
            ("sparse_vectors"@, sparse_list(s.sparse_vectors)),
            ("vectors"@, vector_list(s.vectors)),
            ("version"@, Tree::Number(Num::Unsigned(s.version))),
        ],
    )
}

/// A schema as JSON, every key present.
pub fn to_json(s: &CollectionSchema) -> (r: Json)
    ensures
        r@ == schema_json(s@),
{
    let mut es = schema::no_entries();
    schema::push(&mut es, "annotations", annotations_to_json(&s.annotations));
    schema::push(&mut es, "dynamic", value::string(dynamic_name(s.dynamic)));
    schema::push(&mut es, "fields", fields_to_json(&s.fields));
    schema::push(
        &mut es,
        "max_fields",
        Json::Number(Number::Unsigned(s.max_fields as u64)),
    );
    schema::push(&mut es, "sparse_vectors", sparses_to_json(&s.sparse_vectors));
    schema::push(&mut es, "vectors", vectors_to_json(&s.vectors));
    schema::push(&mut es, "version", Json::Number(Number::Unsigned(s.version)));
    assert(value::entries_of(es@) =~= schema_json(s@)->Object_0);
    Json::Object(es)
}

/// The keys of a schema.
pub open spec fn schema_keys() -> Seq<Seq<char>> {
    seq![
        "version"@,
        "fields"@,
        "vectors"@,
        "sparse_vectors"@,
        "dynamic"@,
        "max_fields"@,
        "annotations"@,
    ]
}

/// The version of an object's schema, if it says one.
pub open spec fn version_in(es: Seq<(Seq<char>, Tree)>) -> Result<Option<u64>, Failure> {
    match fields::present(es, "version"@) {
        None => Ok(None),
        Some(t) => match fields::small_number(t, u64::MAX) {
            Some(n) => Ok(Some(n)),
            None => Err(fields::wrong_key("schema"@, "version"@, "an unsigned integer"@)),
        },
    }
}

/// What an object's schema does with new fields: refuse them where it does
/// not say.
pub open spec fn dynamic_in(es: Seq<(Seq<char>, Tree)>) -> Result<DynamicMapping, Failure> {
    match fields::text_in(es, "schema"@, "dynamic"@) {
        Err(e) => Err(e),
        Ok(None) => Ok(DynamicMapping::Strict),
        Ok(Some(s)) => if s == "strict"@ {
            Ok(DynamicMapping::Strict)
        } else if s == "ignore"@ {
            Ok(DynamicMapping::Ignore)
        } else if s == "map"@ {
            Ok(DynamicMapping::Mapped)
        } else {
            Err(fields::invalid("unknown dynamic mapping "@ + s))
        },
    }
}

/// The error of annotations that are not strings.
pub open spec fn bad_annotations() -> Failure {
    fields::wrong_key("schema"@, "annotations"@, "an object of strings"@)
}

/// The annotations of an object's schema.
pub open spec fn annotations_in(es: Seq<(Seq<char>, Tree)>) -> Result<
    Seq<(Seq<char>, Seq<char>)>,
    Failure,
> {
    match fields::present(es, "annotations"@) {
        None => Ok(Seq::empty()),
        Some(Tree::Object(a)) => if forall|i: int| 0 <= i < a.len() ==> (#[trigger] a[i]).1 is Text {
            Ok(Seq::new(a.len(), |i: int| (a[i].0, a[i].1->Text_0)))
        } else {
            Err(bad_annotations())
        },
        Some(_) => Err(bad_annotations()),
    }
}

fn read_annotations(o: &Obj) -> (r: Result<Vec<(String, String)>, ServiceError>)
    requires
        o.what@ == "schema"@,
    ensures
        match r {
            Ok(v) => annotations_in(o.es()) == Ok::<Seq<(Seq<char>, Seq<char>)>, Failure>(
                collection::pair_views(v@),
            ),
            Err(e) => annotations_in(o.es()) == Err::<Seq<(Seq<char>, Seq<char>)>, Failure>(e@),
        },
{
    let mut out: Vec<(String, String)> = Vec::new();
    match o.get("annotations") {
        None => {
            assert(collection::pair_views(out@) =~= Seq::empty());
            Ok(out)
        },
        Some(v) => match v.as_object() {
            None => Err(o.wrong("annotations", "an object of strings")),
            Some(a) => {
                let ghost av = value::entries_of(a@);
                let mut i: usize = 0;
                while i < a.len()
                    invariant
                        i <= a@.len(),
                        o.what@ == "schema"@,
                        av == value::entries_of(a@),
                        fields::present(o.es(), "annotations"@) == Some(Tree::Object(av)),
                        out@.len() == i,
                        forall|j: int| 0 <= j < i ==> (#[trigger] av[j]).1 is Text,
                        forall|j: int|
                            0 <= j < i ==> (#[trigger] out@[j]).0@ == av[j].0 && out@[j].1@
                                == av[j].1->Text_0,
                    decreases a.len() - i,
                {
                    assert(av[i as int] == (a@[i as int].0@, a@[i as int].1@));
                    match a[i].1.as_str() {
                        Some(s) => {
                            out.push((a[i].0.clone(), s.to_owned()));
                        },
                        None => {
                            assert(!(av[i as int].1 is Text));
                            return Err(o.wrong("annotations", "an object of strings"));
                        },
                    }
                    i += 1;
                }
                assert(collection::pair_views(out@) =~= Seq::new(
                    av.len(),
                    |i: int| (av[i].0, av[i].1->Text_0),
                ));
                Ok(out)
            },
        },
    }
}

/// The fields of an object's schema.
pub open spec fn own_fields(es: Seq<(Seq<char>, Tree)>) -> Result<Seq<FieldSpecV>, Failure> {
    match fields::list_in(es, "schema"@, "fields"@) {
        Err(e) => Err(e),
        Ok(items) => fields_in(items, items.len()),
    }
}

/// The dense vectors of an object's schema.
pub open spec fn own_vectors(es: Seq<(Seq<char>, Tree)>, d: HnswParams) -> Result<
    Seq<VectorSpecV>,
    Failure,
> {
    match fields::list_in(es, "schema"@, "vectors"@) {
        Err(e) => Err(e),
        Ok(items) => vectors_in(items, d, items.len()),
    }
}

/// The sparse vectors of an object's schema.
pub open spec fn own_sparse(es: Seq<(Seq<char>, Tree)>) -> Result<Seq<SparseSpecV>, Failure> {
    match fields::list_in(es, "schema"@, "sparse_vectors"@) {
        Err(e) => Err(e),
        Ok(items) => sparses_in(items, items.len()),
    }
}

/// The version of a JSON schema, if it says one, and the schema at version
/// one.
pub open spec fn schema_in(t: Tree, d: SchemaDefaults) -> Result<(Option<u64>, SchemaV), Failure> {
    match fields::object_in(t, "schema"@, schema_keys()) {
        Err(e) => Err(e),
        Ok(es) => match version_in(es) {
            Err(e) => Err(e),
            Ok(version) => match dynamic_in(es) {
                Err(e) => Err(e),
                Ok(dynamic) => match annotations_in(es) {
                    Err(e) => Err(e),
                    Ok(annotations) => match own_fields(es) {
                        Err(e) => Err(e),
                        Ok(fields) => match own_vectors(es, d.hnsw) {
                            Err(e) => Err(e),
                            Ok(vectors) => match own_sparse(es) {
                                Err(e) => Err(e),
                                Ok(sparse_vectors) => match fields::u32_in(
                                    es,
                                    "schema"@,
                                    "max_fields"@,
                                ) {
                                    Err(e) => Err(e),
                                    Ok(most) => Ok(
                                        (
                                            version,
                                            SchemaV {
                                                version: 1,
                                                fields,
                                                vectors,
                                                sparse_vectors,
                                                dynamic,
                                                max_fields: schema::or(most, d.max_fields),
                                                annotations,
                                            },
                                        ),
                                    ),
                                },
                            },
                        },
                    },
                },
            },
        },
    }
}

/// The schema of a JSON value and its version, if it says one.
pub fn parse(v: &Json, d: &SchemaDefaults) -> (r: Result<
    (Option<u64>, CollectionSchema),
    ServiceError,
>)
    ensures
        match r {
            Ok((version, s)) => schema_in(v@, *d) == Ok::<(Option<u64>, SchemaV), Failure>(
                (version, s@),
            ),
            Err(e) => schema_in(v@, *d) == Err::<(Option<u64>, SchemaV), Failure>(e@),
        },
{
    let allowed = [
        "version",
        "fields",
        "vectors",
        "sparse_vectors",
        "dynamic",
        "max_fields",
        "annotations",
    ];
    assert(fields::strs(allowed@) =~= schema_keys());
    let o = match Obj::new(v, "schema", &allowed) {
        Ok(o) => o,
        Err(e) => {
            return Err(e);
        },
    };
    let version: Option<u64> = match o.get("version") {
        None => None,
        Some(n) => match n.as_u64() {
            Some(n) => Some(n),
            None => {
                return Err(o.wrong("version", "an unsigned integer"));
            },
        },
    };
    let dynamic = match o.string("dynamic") {
        Ok(None) => DynamicMapping::Strict,
        Ok(Some(s)) => if text::same(&s, "strict") {
            DynamicMapping::Strict
        } else if text::same(&s, "ignore") {
            DynamicMapping::Ignore
        } else if text::same(&s, "map") {
            DynamicMapping::Mapped
        } else {
            return Err(error::invalid(text::cat2("unknown dynamic mapping ", &s)));
        },
        Err(e) => {
            return Err(e);
        },
    };
    let annotations = match read_annotations(&o) {
        Ok(a) => a,
        Err(e) => {
            return Err(e);
        },
    };
    let fields = match o.list("fields") {
        Ok(items) => match fields_from_json(items) {
            Ok(f) => f,
            Err(e) => {
                return Err(e);
            },
        },
        Err(e) => {
            return Err(e);
        },
    };
    let vectors = match o.list("vectors") {
        Ok(items) => match vectors_from_json(items, &d.hnsw) {
            Ok(f) => f,
            Err(e) => {
                return Err(e);
            },
        },
        Err(e) => {
            return Err(e);
        },
    };
    let sparse_vectors = match o.list("sparse_vectors") {
        Ok(items) => match sparses_from_json(items) {
            Ok(f) => f,
            Err(e) => {
                return Err(e);
            },
        },
        Err(e) => {
            return Err(e);
        },
    };
    let max_fields = match o.u32("max_fields") {
        Ok(n) => schema::num_or(n, d.max_fields),
        Err(e) => {
            return Err(e);
        },
    };
    Ok(
        (
            version,
            CollectionSchema {
                version: 1,
                fields,
                vectors,
                sparse_vectors,
                dynamic,
                max_fields,
                annotations,
            },
        ),
    )
}

/// The schema of a JSON value, at version one whatever it says.
pub fn from_json(v: &Json, d: &SchemaDefaults) -> (r: Result<CollectionSchema, ServiceError>)
    ensures
        match r {
            Ok(s) => schema_in(v@, *d) matches Ok(p) && p.1 == s@,
            Err(e) => schema_in(v@, *d) == Err::<(Option<u64>, SchemaV), Failure>(e@),
        },
{
    match parse(v, d) {
        Ok((_, s)) => Ok(s),
        Err(e) => Err(e),
    }
}

/// The schema of a JSON value with the version that it says.
pub open spec fn versioned(p: (Option<u64>, SchemaV)) -> SchemaV {
    match p.0 {
        Some(version) => SchemaV { version, ..p.1 },
        None => p.1,
    }
}

/// The schema of a JSON value, at the version that it says, else at one.
pub fn read_versioned(v: &Json, d: &SchemaDefaults) -> (r: Result<CollectionSchema, ServiceError>)
    ensures
        match r {
            Ok(s) => schema_in(v@, *d) matches Ok(p) && versioned(p) == s@,
            Err(e) => schema_in(v@, *d) == Err::<(Option<u64>, SchemaV), Failure>(e@),
        },
{
    match parse(v, d) {
        Ok((version, s)) => {
            let mut s = s;
            if let Some(version) = version {
                s.version = version;
            }
            Ok(s)
        },
        Err(e) => Err(e),
    }
}

} // verus!
