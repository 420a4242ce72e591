//! The descriptors of nested search calls: `{"collection": c, "retriever":
//! r}`, where a field that the call left out is null until it is resolved.


use crate::collection::{CollectionSchema, FieldKind, FieldSpecV, SchemaV};
use crate::json::entries;
use crate::json::value;
use crate::json::value::{Json, Num, Number, Tree};
use crate::sql::args;
use crate::sql::args::{SqlKind, SqlValue};
use crate::text;
use vstd::prelude::*;
use vstd::string::*;

verus! {

/// The value at a path of keys, from the `i`-th on; `0` is an array's first
/// item.
pub open spec fn pointed(t: Tree, path: Seq<Seq<char>>, i: int) -> Option<Tree>
    decreases path.len() - i,
{
    if i < 0 || i >= path.len() {
        Some(t)
    } else {
        match t {
            Tree::Object(es) => match value::lookup(es, path[i]) {
                Some(v) => pointed(v, path, i + 1),
                None => None,
            },
            Tree::Array(items) => if path[i] == "0"@ && items.len() > 0 {
                pointed(items[0], path, i + 1)
            } else {
                None
            },
            _ => None,
        }
    }
}

/// A value with another one at a path of keys.
pub open spec fn replaced(t: Tree, path: Seq<Seq<char>>, i: int, new: Tree) -> Tree
    decreases path.len() - i,
{
    if i < 0 || i >= path.len() {
        new
    } else {
        match t {
            Tree::Object(es) => match value::lookup(es, path[i]) {
                Some(v) => Tree::Object(
                    entries::put(es, path[i], replaced(v, path, i + 1, new)),
                ),
                None => t,
            },
            Tree::Array(items) => if path[i] == "0"@ && items.len() > 0 {
                Tree::Array(items.update(0, replaced(items[0], path, i + 1, new)))
            } else {
                t
            },
            _ => t,
        }
    }
}

/// Where the retriever of a vector search has its field.
pub open spec fn vector_place() -> Seq<Seq<char>> {
    seq!["vector"@, "field"@]
}

/// Where the retriever of a text search has its field.
pub open spec fn text_place() -> Seq<Seq<char>> {
    seq!["text"@, "query"@, "match"@, "field"@]
}

/// Where the retriever of a filtered text search has its field.
pub open spec fn filtered_place() -> Seq<Seq<char>> {
    seq!["text"@, "query"@, "bool"@, "must"@, "0"@, "match"@, "field"@]
}

/// A retriever whose field is null, at the first place that it has one.
pub open spec fn without_field(t: Tree) -> Tree {
    if pointed(t, vector_place(), 0) is Some {
        replaced(t, vector_place(), 0, Tree::Null)
    } else if pointed(t, text_place(), 0) is Some {
        replaced(t, text_place(), 0, Tree::Null)
    } else if pointed(t, filtered_place(), 0) is Some {
        replaced(t, filtered_place(), 0, Tree::Null)
    } else {
        t
    }
}

/// The descriptor of a retriever.
pub open spec fn described(collection: Seq<char>, retriever: Tree) -> Tree {
    Tree::Object(
        seq![("collection"@, Tree::Text(collection)), ("retriever"@, retriever)],
    )
}

/// The texts of some keys.
pub open spec fn key_texts(path: Seq<&str>) -> Seq<Seq<char>> {
    Seq::new(path.len(), |i: int| path[i]@)
}

fn find_at<'a>(t: &'a Json, path: &[&str], i: usize) -> (r: Option<&'a Json>)
    requires
        i <= path@.len(),
    ensures
        match r {
            Some(v) => pointed(t@, key_texts(path@), i as int) == Some(v@),
            None => pointed(t@, key_texts(path@), i as int) is None,
        },
    decreases path@.len() - i,
{
    broadcast use {value::view_object, value::view_array};

    if i == path.len() {
        return Some(t);
    }
    assert(key_texts(path@)[i as int] == path@[i as int]@);
    match t {
        Json::Object(es) => match value::find(es, path[i]) {
            Some(v) => find_at(v, path, i + 1),
            None => None,
        },
        Json::Array(items) => {
            if text::same(path[i], "0") && items.len() > 0 {
                assert(value::items_of(items@)[0] == items@[0]@);
                find_at(&items[0], path, i + 1)
            } else {
                None
            }
        },
        _ => None,
    }
}

proof fn lookup_at(es: Seq<(Seq<char>, Tree)>, key: Seq<char>, i: int)
    requires
        0 <= i < es.len(),
        es[i].0 == key,
        forall|j: int| 0 <= j < i ==> (#[trigger] es[j]).0 != key,
    ensures
        value::lookup(es, key) == Some(es[i].1),
    decreases i,
{
    if i > 0 {
        assert(es[0].0 != key);
        let rest = es.drop_first();
        assert forall|j: int| 0 <= j < i - 1 implies (#[trigger] rest[j]).0 != key by {
            assert(rest[j] == es[j + 1]);
        }
        lookup_at(rest, key, i - 1);
    }
}

proof fn lookup_none(es: Seq<(Seq<char>, Tree)>, key: Seq<char>)
    requires
        forall|j: int| 0 <= j < es.len() ==> (#[trigger] es[j]).0 != key,
    ensures
        value::lookup(es, key) is None,
    decreases es.len(),
{
    if es.len() > 0 {
        assert(es[0].0 != key);
        let rest = es.drop_first();
        assert forall|j: int| 0 <= j < rest.len() implies (#[trigger] rest[j]).0 != key by {
            assert(rest[j] == es[j + 1]);
        }
        lookup_none(rest, key);
    }
}

proof fn place_at(names: Seq<Seq<char>>, name: Seq<char>, i: int, from: int)
    requires
        0 <= from <= i < names.len(),
        names[i] == name,
        forall|j: int| from <= j < i ==> #[trigger] names[j] != name,
    ensures
        entries::place(names, name, from) == Some(i),
    decreases i - from,
{
    if from < i {
        place_at(names, name, i, from + 1);
    }
}

fn put_at(t: Json, path: &[&str], i: usize, new: Json) -> (r: Json)
    requires
        i <= path@.len(),
    ensures
        r@ == replaced(t@, key_texts(path@), i as int, new@),
    decreases path@.len() - i,
{
    broadcast use {value::view_object, value::view_array};

    if i == path.len() {
        return new;
    }
    let ghost keys = key_texts(path@);
    assert(keys[i as int] == path@[i as int]@);
    match t {
        Json::Object(list) => {
            let ghost was = value::entries_of(list@);
            let mut es = list;
            let mut j: usize = 0;
            while j < es.len()
                invariant
                    j <= es@.len(),
                    i < path@.len(),
                    was == value::entries_of(es@),
                    t@ == Tree::Object(was),
                    keys == key_texts(path@),
                    keys[i as int] == path@[i as int]@,
                    forall|k: int| 0 <= k < j ==> (#[trigger] was[k]).0 != keys[i as int],
                decreases es.len() - j,
            {
                assert(was[j as int] == (es@[j as int].0@, es@[j as int].1@));
                if text::same(&es[j].0, path[i]) {
                    let ghost all = es@;
                    let (key, inner) = es.remove(j);
                    let made = put_at(inner, path, i + 1, new);
                    let ghost v = made@;
                    es.insert(j, (key, made));
                    proof {
                        lookup_at(was, keys[i as int], j as int);
                        let names = entries::keys(was);
                        assert forall|k: int| 0 <= k < j implies #[trigger] names[k]
                            != keys[i as int] by {
                            assert(names[k] == was[k].0);
                        }
                        assert(names[j as int] == keys[i as int]);
                        place_at(names, keys[i as int], j as int, 0);
                        assert(value::entries_of(es@) =~= was.update(
                            j as int,
                            (keys[i as int], v),
                        ));
                    }
                    let ghost last = es;
                    let out = Json::Object(es);
                    proof {
                        value::view_object(last);
                    }
                    return out;
                }
                j += 1;
            }
            proof {
                lookup_none(was, keys[i as int]);
            }
            let ghost last = es;
            let out = Json::Object(es);
            proof {
                value::view_object(last);
            }
            out
        },
        Json::Array(list) => {
            let ghost was = value::items_of(list@);
            let mut items = list;
            if text::same(path[i], "0") && items.len() > 0 {
                assert(was[0] == items@[0]@);
                let inner = items.remove(0);
                let made = put_at(inner, path, i + 1, new);
                let ghost v = made@;
                items.insert(0, made);
                assert(value::items_of(items@) =~= was.update(0, v));
            }
            let ghost last = items;
            let out = Json::Array(items);
            proof {
                value::view_array(last);
            }
            out
        },
        other => other,
    }
}

/// The descriptor of a retriever's JSON form; a field that the call left out
/// is null.
pub fn descriptor(collection: &str, retriever: Json, field_given: bool) -> (r: Json)
    ensures
        r@ == described(
            collection@,
            if field_given {
                retriever@
            } else {
                without_field(retriever@)
            },
        ),
{
    let mut shown = retriever;
    if !field_given {
        let a = ["vector", "field"];
        let b = ["text", "query", "match", "field"];
        let c = ["text", "query", "bool", "must", "0", "match", "field"];
        assert(key_texts(a@) =~= vector_place());
        assert(key_texts(b@) =~= text_place());
        assert(key_texts(c@) =~= filtered_place());
        if find_at(&shown, &a, 0).is_some() {
            shown = put_at(shown, &a, 0, Json::Null);
        } else if find_at(&shown, &b, 0).is_some() {
            shown = put_at(shown, &b, 0, Json::Null);
        } else if find_at(&shown, &c, 0).is_some() {
            shown = put_at(shown, &c, 0, Json::Null);
        }
    }
    let ghost last = shown@;
    let mut es: Vec<(String, Json)> = Vec::new();
    es.push(("collection".to_owned(), value::string(collection)));
    es.push(("retriever".to_owned(), shown));
    let ghost made = es;
    let out = Json::Object(es);
    proof {
        value::view_object(made);
        assert(value::entries_of(made@) =~= seq![
            ("collection"@, Tree::Text(collection@)),
            ("retriever"@, last),
        ]);
    }
    out
}

/// The error of an argument that is no nested search.
pub open spec fn not_a_retriever(i: nat) -> Seq<char> {
    "argument "@ + text::decimal(i + 1)
        + " of rrf must be a vector_search or text_search call"@
}

/// The error of an argument that is no nested search.
pub fn no_retriever(i: usize) -> (r: String)
    requires
        i < usize::MAX,
    ensures
        r@ == not_a_retriever(i as nat),
{
    let shown = text::dec(i as u64 + 1);
    text::cat3("argument ", &shown, " of rrf must be a vector_search or text_search call")
}

/// The collection and retriever of a descriptor.
pub open spec fn described_in(json: Option<Tree>, i: nat) -> Result<(Seq<char>, Tree), Seq<char>> {
    match json {
        Some(Tree::Object(es)) => match (
            value::lookup(es, "collection"@),
            value::lookup(es, "retriever"@),
        ) {
            (Some(Tree::Text(name)), Some(t)) => Ok((name, t)),
            _ => Err(not_a_retriever(i)),
        },
        _ => Err(not_a_retriever(i)),
    }
}

/// The JSON value of a text, which may write none.
pub open spec fn opt_tree(json: Option<Json>) -> Option<Tree> {
    match json {
        Some(j) => Some(j@),
        None => None,
    }
}

/// The collection and retriever of a descriptor, the `i`-th argument.
pub fn descriptor_parts(json: &Option<Json>, i: usize) -> (r: Result<(String, Json), String>)
    requires
        i < usize::MAX,
    ensures
        match r {
            Ok((name, t)) => described_in(opt_tree(*json), i as nat) == Ok::<
                (Seq<char>, Tree),
                Seq<char>,
            >((name@, t@)),
            Err(e) => described_in(opt_tree(*json), i as nat) == Err::<
                (Seq<char>, Tree),
                Seq<char>,
            >(e@),
        },
{
    let es = match json {
        Some(j) => match j.as_object() {
            Some(es) => es,
            None => {
                return Err(no_retriever(i));
            },
        },
        None => {
            return Err(no_retriever(i));
        },
    };
    match (value::find(es, "collection"), value::find(es, "retriever")) {
        (Some(name), Some(t)) => match name.as_str() {
            Some(name) => Ok((name.to_owned(), t.copy())),
            None => Err(no_retriever(i)),
        },
        _ => Err(no_retriever(i)),
    }
}

/// The only dense vector of a collection.
pub open spec fn only_vector(collection: Seq<char>, s: SchemaV) -> Result<Seq<char>, Seq<char>> {
    if s.vectors.len() == 1 {
        Ok(s.vectors[0].name)
    } else {
        Err(
            "vector_search on "@ + collection + " needs a field: it has "@ + text::decimal(
                s.vectors.len(),
            ) + " vectors"@,
        )
    }
}

/// The names of the text fields among the first.
pub open spec fn text_fields(fields: Seq<FieldSpecV>, n: nat) -> Seq<Seq<char>>
    decreases n,
{
    if n == 0 || n > fields.len() {
        Seq::empty()
    } else if fields[n - 1].kind is Text {
        text_fields(fields, (n - 1) as nat).push(fields[n - 1].name)
    } else {
        text_fields(fields, (n - 1) as nat)
    }
}

/// The only text field of a collection.
pub open spec fn only_text(collection: Seq<char>, s: SchemaV) -> Result<Seq<char>, Seq<char>> {
    let names = text_fields(s.fields, s.fields.len());
    if names.len() == 1 {
        Ok(names[0])
    } else {
        Err(
            "text_search on "@ + collection + " needs a field: it has "@ + text::decimal(
                names.len(),
            ) + " text fields"@,
        )
    }
}

/// The outcome of naming a field.
pub open spec fn name_result(r: Result<String, String>) -> Result<Seq<char>, Seq<char>> {
    match r {
        Ok(s) => Ok(s@),
        Err(e) => Err(e@),
    }
}

/// The only dense vector of a collection.
pub fn default_vector_field(collection: &str, schema: &CollectionSchema) -> (r: Result<
    String,
    String,
>)
    ensures
        name_result(r) == only_vector(collection@, schema@),
{
    if schema.vectors.len() == 1 {
        assert(schema@.vectors[0].name == schema.vectors@[0].name@);
        return Ok(schema.vectors[0].name.clone());
    }
    let mut out = text::cat3("vector_search on ", collection, " needs a field: it has ");
    out.append(text::dec(schema.vectors.len() as u64).as_str());
    out.append(" vectors");
    Err(out)
}

/// The only text field of a collection.
pub fn default_text_field(collection: &str, schema: &CollectionSchema) -> (r: Result<
    String,
    String,
>)
    ensures
        name_result(r) == only_text(collection@, schema@),
{
    let ghost fv = schema@.fields;
    let mut names: Vec<String> = Vec::new();
    let mut i: usize = 0;
    assert(text::texts(names@) =~= Seq::empty());
    while i < schema.fields.len()
        invariant
            i <= schema.fields@.len(),
            fv == schema@.fields,
            text::texts(names@) == text_fields(fv, i as nat),
        decreases schema.fields.len() - i,
    {
        assert(fv[i as int] == schema.fields@[i as int]@);
        let ghost before = text::texts(names@);
        if let FieldKind::Text { .. } = &schema.fields[i].kind {
            names.push(schema.fields[i].name.clone());
            assert(text::texts(names@) =~= before.push(fv[i as int].name));
        }
        i += 1;
    }
    if names.len() == 1 {
        assert(text::texts(names@)[0] == names@[0]@);
        return Ok(names[0].clone());
    }
    let mut out = text::cat3("text_search on ", collection, " needs a field: it has ");
    out.append(text::dec(names.len() as u64).as_str());
    out.append(" text fields");
    Err(out)
}

/// A retriever with a field in place of a null one at a place.
pub open spec fn filled(t: Tree, path: Seq<Seq<char>>, name: Result<Seq<char>, Seq<char>>) -> Result<
    Tree,
    Seq<char>,
> {
    match pointed(t, path, 0) {
        Some(Tree::Null) => match name {
            Ok(name) => Ok(replaced(t, path, 0, Tree::Text(name))),
            Err(e) => Err(e),
        },
        _ => Ok(t),
    }
}

/// A descriptor's retriever with the field that its call left out.
pub open spec fn with_fields(t: Tree, name: Seq<char>, s: SchemaV) -> Result<Tree, Seq<char>> {
    match filled(t, vector_place(), only_vector(name, s)) {
        Err(e) => Err(e),
        Ok(t) => match filled(t, text_place(), only_text(name, s)) {
            Err(e) => Err(e),
            Ok(t) => filled(t, filtered_place(), only_text(name, s)),
        },
    }
}

fn fill(t: Json, path: &[&str], name: Result<String, String>) -> (r: Result<Json, String>)
    ensures
        filled(t@, key_texts(path@), name_result(name)) == (match r {
            Ok(t) => Ok::<Tree, Seq<char>>(t@),
            Err(e) => Err(e@),
        }),
{
    let missing = match find_at(&t, path, 0) {
        Some(Json::Null) => true,
        Some(v) => {
            broadcast use {value::view_object, value::view_array};

            assert(!(v@ is Null));
            false
        },
        None => false,
    };
    if !missing {
        return Ok(t);
    }
    match name {
        Ok(name) => {
            let new = Json::Text(name);
            Ok(put_at(t, path, 0, new))
        },
        Err(e) => Err(e),
    }
}

/// A descriptor's retriever with the field that its call left out, of the
/// collection's schema.
pub fn resolve_field(t: Json, name: &str, schema: &CollectionSchema) -> (r: Result<Json, String>)
    ensures
        with_fields(t@, name@, schema@) == (match r {
            Ok(t) => Ok::<Tree, Seq<char>>(t@),
            Err(e) => Err(e@),
        }),
{
    let a = ["vector", "field"];
    let b = ["text", "query", "match", "field"];
    let c = ["text", "query", "bool", "must", "0", "match", "field"];
    assert(key_texts(a@) =~= vector_place());
    assert(key_texts(b@) =~= text_place());
    assert(key_texts(c@) =~= filtered_place());
    let t = match fill(t, &a, default_vector_field(name, schema)) {
        Ok(t) => t,
        Err(e) => {
            return Err(e);
        },
    };
    let t = match fill(t, &b, default_text_field(name, schema)) {
        Ok(t) => t,
        Err(e) => {
            return Err(e);
        },
    };
    fill(t, &c, default_text_field(name, schema))
}

/// An argument of a nested fusion: a descriptor or another object as it is,
/// a whole number as a number, anything else as its text.
pub open spec fn nested_arg(v: SqlValue) -> Tree {
    match v.kind {
        SqlKind::Null => Tree::Null,
        SqlKind::Text { text, json } => match json {
            Some(j) => if j@ is Object {
                j@
            } else {
                Tree::Text(text@)
            },
            None => Tree::Text(text@),
        },
        k => match args::whole_in(k) {
            Some(n) => Tree::Number(Num::Unsigned(n as u64)),
            None => Tree::Text(v.shown@),
        },
    }
}

fn nested(v: &SqlValue) -> (r: Json)
    ensures
        r@ == nested_arg(*v),
{
    match &v.kind {
        SqlKind::Null => Json::Null,
        SqlKind::Text { text, json } => match json {
            Some(j) => {
                if j.as_object().is_some() {
                    j.copy()
                } else {
                    Json::Text(text.clone())
                }
            },
            None => Json::Text(text.clone()),
        },
        k => match args::whole_number(k) {
            Some(n) => Json::Number(Number::Unsigned(n)),
            None => Json::Text(v.shown.clone()),
        },
    }
}

/// The descriptor of a nested fusion.
pub fn rrf_descriptor(values: &Vec<SqlValue>) -> (r: Json)
    ensures
        r@ == Tree::Object(
            seq![
                (
                    "rrf"@,
                    Tree::Array(Seq::new(values@.len(), |i: int| nested_arg(values@[i]))),
                ),
            ],
        ),
{
    let mut items: Vec<Json> = Vec::new();
    let mut i: usize = 0;
    while i < values.len()
        invariant
            i <= values@.len(),
            items@.len() == i,
            forall|k: int| 0 <= k < i ==> (#[trigger] items@[k])@ == nested_arg(values@[k]),
        decreases values.len() - i,
    {
        items.push(nested(&values[i]));
        i += 1;
    }
    let ghost listed = items;
    let array = Json::Array(items);
    proof {
        value::view_array(listed);
        assert(value::items_of(listed@) =~= Seq::new(
            values@.len(),
            |i: int| nested_arg(values@[i]),
        ));
    }
    let ghost shown = array@;
    let mut es: Vec<(String, Json)> = Vec::new();
    es.push(("rrf".to_owned(), array));
    let ghost made = es;
    let out = Json::Object(es);
    proof {
        value::view_object(made);
        assert(value::entries_of(made@) =~= seq![("rrf"@, shown)]);
    }
    out
}

/// A descriptor reads back: what was described is found in it.
pub proof fn descriptors_read_back(collection: Seq<char>, retriever: Tree, i: nat)
    ensures
        described_in(Some(described(collection, retriever)), i) == Ok::<
            (Seq<char>, Tree),
            Seq<char>,
        >((collection, retriever)),
{
    let es = seq![("collection"@, Tree::Text(collection)), ("retriever"@, retriever)];
    reveal_strlit("collection");
    reveal_strlit("retriever");
    assert("collection"@[0] == 'c' && "retriever"@[0] == 'r');
    lookup_at(es, "collection"@, 0);
    assert(es[0].0 != "retriever"@);
    lookup_at(es, "retriever"@, 1);
}

} // verus!
