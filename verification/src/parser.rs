//! Reading a description of an API out of a document.

use vstd::prelude::*;
use crate::document::{
    distinct_texts, get_in, has_key, items_of, lemma_lookup_well_keyed, lookup, node_or_bad,
    text_of, well_keyed, Entry, EntryView, Node, NodeView,
};
use crate::error::{
    result_view, SchemaError, SchemaErrorView, SchemaFault, SchemaFaultView, Side,
};
use crate::schema::{
    api_well_formed, distinct_properties, lemma_object_view, method_well_formed, well_formed, Api,
    ApiView, Content, ContentView, Method, MethodView, ParamType, Property, PropertyView,
};
use crate::sequence::{
    collect, distinct_keys, first_index, insert_keyed, law_upsert_all, lemma_collect_error,
    lemma_collect_ok, lemma_collect_step, lemma_first_index, lemma_first_index_is,
    lemma_somes_members, lemma_somes_push, lemma_upsert_all_push, somes, upsert_all,
};
use crate::text::{blank, is_blank, same_text};

verus! {

/// The content that a string property stands for: a date where its format
/// says so, else a plain string. A format other than `date` is refused,
/// unless it is empty.
pub open spec fn string_or_date(key: Seq<char>, declaration: NodeView) -> Result<
    ContentView,
    SchemaFaultView,
> {
    match text_of(lookup(declaration, "format"@)) {
        Some(format) => if format == "date"@ {
            Ok(ContentView::Date)
        } else if format.len() == 0 {
            Ok(ContentView::String)
        } else {
            Err(SchemaFaultView::UnsupportedFormat { key, format })
        },
        None => Ok(ContentView::String),
    }
}

/// The content that a scalar type name stands for.
pub open spec fn scalar_of(key: Seq<char>, name: Seq<char>, declaration: NodeView) -> Result<
    ContentView,
    SchemaFaultView,
> {
    if name == "string"@ {
        string_or_date(key, declaration)
    } else if name == "integer"@ {
        Ok(ContentView::Integer)
    } else if name == "number"@ {
        Ok(ContentView::Number)
    } else if name == "boolean"@ {
        Ok(ContentView::Boolean)
    } else {
        Err(SchemaFaultView::UnsupportedPropertyType { key, found: name })
    }
}

/// Whether a node is the name of the null type.
pub open spec fn is_null_name(node: NodeView) -> bool {
    node == NodeView::Text("null"@)
}

/// The property that a list of type names stands for. The list has to hold
/// two names, exactly one of them `null`; the other one names a scalar type,
/// and the property may be null.
pub open spec fn union_of(key: Seq<char>, declaration: NodeView, names: Seq<NodeView>) -> Result<
    PropertyView,
    SchemaFaultView,
> {
    if names.len() == 2 && is_null_name(names[0]) != is_null_name(names[1]) {
        let other = if is_null_name(names[0]) {
            names[1]
        } else {
            names[0]
        };
        match text_of(other) {
            Some(name) => match scalar_of(key, name, declaration) {
                Ok(value) => Ok(PropertyView { key, value, or_null: true }),
                Err(error) => Err(error),
            },
            None => Err(SchemaFaultView::MalformedTypeUnion { key }),
        }
    } else {
        Err(SchemaFaultView::MalformedTypeUnion { key })
    }
}

/// Whether the key of an entry is something else than a string.
pub open spec fn has_other_key() -> spec_fn(EntryView) -> bool {
    |entry: EntryView| !(entry.key is Text)
}

/// The content that a schema node describes. A node that is neither an
/// object nor an array describes none, and so does an array of such nodes.
/// The owner is the key of the property that the node declares, and none
/// for the schema of a body; a refusal of the object names it.
pub open spec fn schema_of(owner: Option<Seq<char>>, node: NodeView) -> Result<
    Option<ContentView>,
    SchemaFaultView,
>
    decreases node, 2nat,
{
    match node {
        NodeView::Table(entries) => {
            let kind = text_of(lookup(node, "type"@));
            if kind == Some("object"@) {
                let p = first_index(entries, has_key("properties"@));
                if 0 <= p < entries.len() {
                    match object_of(owner, entries[p].value) {
                        Ok(properties) => Ok(Some(ContentView::Object(properties))),
                        Err(error) => Err(error),
                    }
                } else {
                    Err(SchemaFaultView::MissingProperties { owner })
                }
            } else if kind == Some("array"@) {
                let i = first_index(entries, has_key("items"@));
                if 0 <= i < entries.len() {
                    match schema_of(owner, entries[i].value) {
                        Ok(Some(element)) => Ok(Some(ContentView::Array(Box::new(element)))),
                        Ok(None) => Ok(None),
                        Err(error) => Err(error),
                    }
                } else {
                    Ok(None)
                }
            } else {
                Ok(None)
            }
        },
        _ => Ok(None),
    }
}

/// The properties that the node under `properties` declares, in its order.
/// It has to be a mapping with strings for keys.
pub open spec fn object_of(owner: Option<Seq<char>>, declared: NodeView) -> Result<
    Seq<PropertyView>,
    SchemaFaultView,
>
    decreases declared, 1nat,
{
    match declared {
        NodeView::Table(declarations) => {
            let position = first_index(declarations, has_other_key());
            if 0 <= position < declarations.len() {
                Err(SchemaFaultView::InvalidPropertyKey { owner, position: position as nat })
            } else {
                collect(declared_properties(declarations))
            }
        },
        _ => Err(SchemaFaultView::MissingProperties { owner }),
    }
}

/// What each of the entries under `properties` declares.
pub open spec fn declared_properties(declarations: Seq<EntryView>) -> Seq<
    Result<PropertyView, SchemaFaultView>,
>
    decreases declarations, 1nat,
{
    Seq::new(
        declarations.len(),
        |i: int|
            if 0 <= i < declarations.len() {
                property_of(declarations[i])
            } else {
                arbitrary()
            },
    )
}

/// The property that one entry under `properties` declares. An entry
/// whose key is no string is refused as the only entry of an object
/// without an owner.
pub open spec fn property_of(entry: EntryView) -> Result<PropertyView, SchemaFaultView>
    decreases entry, 0nat,
{
    match entry.key {
        NodeView::Text(key) => {
            let declared = lookup(entry.value, "type"@);
            match text_of(declared) {
                Some(name) => if name == "object"@ || name == "array"@ {
                    match schema_of(Some(key), entry.value) {
                        Ok(Some(value)) => Ok(PropertyView { key, value, or_null: false }),
                        Ok(None) => Err(SchemaFaultView::UnrepresentableProperty { key }),
                        Err(error) => Err(error),
                    }
                } else {
                    match scalar_of(key, name, entry.value) {
                        Ok(value) => Ok(PropertyView { key, value, or_null: false }),
                        Err(error) => Err(error),
                    }
                },
                None => union_of(key, entry.value, items_of(declared)),
            }
        },
        _ => Err(SchemaFaultView::InvalidPropertyKey { owner: None, position: 0 }),
    }
}

/// The schema of what an operation answers with status 200 as JSON.
pub open spec fn response_schema(operation: NodeView) -> NodeView {
    lookup(
        lookup(lookup(lookup(lookup(operation, "responses"@), "200"@), "content"@), "application/json"@),
        "schema"@,
    )
}

/// The schema of what an operation takes as JSON.
pub open spec fn request_schema(operation: NodeView) -> NodeView {
    lookup(
        lookup(lookup(lookup(operation, "requestBody"@), "content"@), "application/json"@),
        "schema"@,
    )
}

/// The operation that stands under the method `token` of `path`.
pub open spec fn method_of(path: Seq<char>, token: Seq<char>, operation: NodeView) -> Result<
    MethodView,
    SchemaErrorView,
> {
    match text_of(lookup(operation, "operationId"@)) {
        None => Err(SchemaErrorView::MissingOperationId { path, method: token }),
        Some(operation_id) => match text_of(lookup(operation, "summary"@)) {
            Some(summary) if !is_blank(summary) => match schema_of(
                None,
                response_schema(operation),
            ) {
                Err(fault) => Err(
                    SchemaErrorView::InvalidSchema {
                        path,
                        method: token,
                        side: Side::Response,
                        fault,
                    },
                ),
                Ok(response_opt) => match schema_of(None, request_schema(operation)) {
                    Err(fault) => Err(
                        SchemaErrorView::InvalidSchema {
                            path,
                            method: token,
                            side: Side::RequestBody,
                            fault,
                        },
                    ),
                    Ok(request_body_opt) => Ok(
                        MethodView { operation_id, summary, response_opt, request_body_opt },
                    ),
                },
            },
            _ => Err(SchemaErrorView::BlankSummary { path, method: token }),
        },
    }
}

/// What one entry under a path gives: an operation under its method token,
/// or nothing for the list of parameters.
pub open spec fn method_entry_of(path: Seq<char>, entry: EntryView) -> Result<
    Option<(Seq<char>, MethodView)>,
    SchemaErrorView,
> {
    match entry.key {
        NodeView::Text(token) => if token == "parameters"@ {
            Ok(None)
        } else {
            match method_of(path, token, entry.value) {
                Ok(method) => Ok(Some((token, method))),
                Err(error) => Err(error),
            }
        },
        _ => Err(SchemaErrorView::InvalidMethodKey { path }),
    }
}

/// The operations of a path, by method token.
pub open spec fn methods_of(path: Seq<char>, item: NodeView) -> Result<
    Seq<(Seq<char>, MethodView)>,
    SchemaErrorView,
> {
    match item {
        NodeView::Table(entries) => match collect(method_entries(path, entries)) {
            Ok(found) => Ok(upsert_all(somes(found))),
            Err(error) => Err(error),
        },
        _ => Ok(Seq::empty()),
    }
}

/// What each of the entries under a path gives.
pub open spec fn method_entries(path: Seq<char>, entries: Seq<EntryView>) -> Seq<
    Result<Option<(Seq<char>, MethodView)>, SchemaErrorView>,
> {
    Seq::new(entries.len(), |i: int| method_entry_of(path, entries[i]))
}

/// The name and type that one parameter of `path` declares.
pub open spec fn param_of(path: Seq<char>, parameter: NodeView) -> Result<
    (Seq<char>, ParamType),
    SchemaErrorView,
> {
    match text_of(lookup(parameter, "name"@)) {
        None => Err(SchemaErrorView::MissingParameterName { path }),
        Some(name) => {
            let declared = text_of(lookup(lookup(parameter, "schema"@), "type"@));
            if declared == Some("integer"@) {
                Ok((name, ParamType::Integer))
            } else if declared == Some("string"@) {
                Ok((name, ParamType::String))
            } else {
                Err(SchemaErrorView::UnknownParameterType { path, name, declared })
            }
        },
    }
}

/// The parameters of a path, by name. Of two with one name the later stays.
pub open spec fn params_of(path: Seq<char>, item: NodeView) -> Result<
    Seq<(Seq<char>, ParamType)>,
    SchemaErrorView,
> {
    match collect(declared_params(path, items_of(lookup(item, "parameters"@)))) {
        Ok(pairs) => Ok(upsert_all(pairs)),
        Err(error) => Err(error),
    }
}

/// What each of the parameters of a path declares.
pub open spec fn declared_params(path: Seq<char>, parameters: Seq<NodeView>) -> Seq<
    Result<(Seq<char>, ParamType), SchemaErrorView>,
> {
    Seq::new(parameters.len(), |i: int| param_of(path, parameters[i]))
}

/// The description of one path: one entry under `paths`.
pub open spec fn api_of(position: nat, entry: EntryView) -> Result<ApiView, SchemaErrorView> {
    match entry.key {
        NodeView::Text(path) => match params_of(path, entry.value) {
            Err(error) => Err(error),
            Ok(param_map) => match methods_of(path, entry.value) {
                Err(error) => Err(error),
                Ok(method_map) => Ok(ApiView { path, param_map, method_map }),
            },
        },
        _ => Err(SchemaErrorView::InvalidPathKey { position }),
    }
}

/// The descriptions of all paths of a document, in its order, or the first
/// reason for which it is refused.
pub open spec fn apis_of(document: NodeView) -> Result<Seq<ApiView>, SchemaErrorView> {
    match lookup(document, "paths"@) {
        NodeView::Table(paths) => collect(described_paths(paths)),
        _ => Err(SchemaErrorView::MissingPaths),
    }
}

/// What each of the entries under `paths` describes.
pub open spec fn described_paths(paths: Seq<EntryView>) -> Seq<Result<ApiView, SchemaErrorView>> {
    Seq::new(paths.len(), |i: int| api_of(i as nat, paths[i]))
}

/// Whether no two descriptions are of the same path.
pub open spec fn distinct_paths(apis: Seq<ApiView>) -> bool {
    forall|i: int, j: int|
        0 <= i < j < apis.len() ==> (#[trigger] apis[i]).path != (#[trigger] apis[j]).path
}

/// The content that is read from a well-keyed schema is well formed.
pub proof fn law_schema_well_formed(owner: Option<Seq<char>>, node: NodeView)
    requires
        well_keyed(node),
    ensures
        schema_of(owner, node) matches Ok(Some(content)) ==> well_formed(content),
    decreases node, 2nat,
{
    match node {
        NodeView::Table(entries) => {
            let kind = text_of(lookup(node, "type"@));
            if kind == Some("object"@) {
                let p = first_index(entries, has_key("properties"@));
                if 0 <= p < entries.len() {
                    assert(well_keyed(entries[p].value));
                    lemma_object_well_formed(owner, entries[p].value);
                }
            } else if kind == Some("array"@) {
                let i = first_index(entries, has_key("items"@));
                if 0 <= i < entries.len() {
                    assert(well_keyed(entries[i].value));
                    law_schema_well_formed(owner, entries[i].value);
                }
            }
        },
        _ => {},
    }
}

/// The properties that are read from a well-keyed mapping have keys of
/// their own and well-formed values.
pub proof fn lemma_object_well_formed(owner: Option<Seq<char>>, declared: NodeView)
    requires
        well_keyed(declared),
    ensures
        object_of(owner, declared) matches Ok(properties) ==> distinct_properties(properties)
            && forall|
            i: int,
        |
            0 <= i < properties.len() ==> well_formed((#[trigger] properties[i]).value),
    decreases declared, 1nat,
{
    match declared {
        NodeView::Table(declarations) => {
            if object_of(owner, declared) is Ok {
                let results = declared_properties(declarations);
                let properties = collect(results)->Ok_0;
                lemma_collect_ok(results);
                lemma_first_index(declarations, has_other_key());
                assert forall|i: int| 0 <= i < properties.len() implies declarations[i].key
                    == NodeView::Text(properties[i].key) && well_formed(
                    (#[trigger] properties[i]).value,
                ) by {
                    assert(well_keyed(declarations[i].value));
                    lemma_property_well_formed(declarations[i]);
                    assert(results[i] == property_of(declarations[i]));
                }
                assert forall|i: int, j: int| 0 <= i < j < properties.len() implies (
                #[trigger] properties[i]).key != (#[trigger] properties[j]).key by {
                    assert(declarations[i].key == NodeView::Text(properties[i].key));
                    assert(declarations[j].key == NodeView::Text(properties[j].key));
                    assert(declarations[i].key != declarations[j].key);
                }
            }
        },
        _ => {},
    }
}

/// The property that is read from an entry has the key of the entry, and
/// its value is well formed if the entry is well keyed.
pub proof fn lemma_property_well_formed(entry: EntryView)
    requires
        well_keyed(entry.value),
    ensures
        property_of(entry) matches Ok(property) ==> entry.key == NodeView::Text(property.key)
            && well_formed(property.value),
    decreases entry, 0nat,
{
    match entry.key {
        NodeView::Text(key) => {
            let declared = lookup(entry.value, "type"@);
            match text_of(declared) {
                Some(name) => {
                    if name == "object"@ || name == "array"@ {
                        law_schema_well_formed(Some(key), entry.value);
                    }
                },
                None => {},
            }
        },
        _ => {},
    }
}

/// The operation that is read has a summary that is not blank, and it is
/// well formed if the document is well keyed.
pub proof fn lemma_method_well_formed(path: Seq<char>, token: Seq<char>, operation: NodeView)
    ensures
        method_of(path, token, operation) matches Ok(method) ==> !is_blank(method.summary) && (
        well_keyed(operation) ==> method_well_formed(method)),
{
    if well_keyed(operation) {
        lemma_lookup_well_keyed(operation, "responses"@);
        lemma_lookup_well_keyed(lookup(operation, "responses"@), "200"@);
        lemma_lookup_well_keyed(lookup(lookup(operation, "responses"@), "200"@), "content"@);
        lemma_lookup_well_keyed(
            lookup(lookup(lookup(operation, "responses"@), "200"@), "content"@),
            "application/json"@,
        );
        lemma_lookup_well_keyed(
            lookup(
                lookup(lookup(lookup(operation, "responses"@), "200"@), "content"@),
                "application/json"@,
            ),
            "schema"@,
        );
        law_schema_well_formed(None, response_schema(operation));
        lemma_lookup_well_keyed(operation, "requestBody"@);
        lemma_lookup_well_keyed(lookup(operation, "requestBody"@), "content"@);
        lemma_lookup_well_keyed(
            lookup(lookup(operation, "requestBody"@), "content"@),
            "application/json"@,
        );
        lemma_lookup_well_keyed(
            lookup(lookup(lookup(operation, "requestBody"@), "content"@), "application/json"@),
            "schema"@,
        );
        law_schema_well_formed(None, request_schema(operation));
    }
}

/// The operations that are read for a path have method tokens of their
/// own, and they are well formed if the document is well keyed.
pub proof fn lemma_methods_well_formed(path: Seq<char>, item: NodeView)
    ensures
        methods_of(path, item) matches Ok(methods) ==> distinct_keys(methods) && (well_keyed(item)
            ==> forall|i: int|
            0 <= i < methods.len() ==> method_well_formed((#[trigger] methods[i]).1)),
{
    match item {
        NodeView::Table(entries) => {
            let results = method_entries(path, entries);
            if collect(results) is Ok {
                let found = collect(results)->Ok_0;
                let methods = upsert_all(somes(found));
                lemma_collect_ok(results);
                law_upsert_all(somes(found));
                lemma_somes_members(found);
                if well_keyed(item) {
                    assert forall|i: int| 0 <= i < methods.len() implies method_well_formed(
                        (#[trigger] methods[i]).1,
                    ) by {
                        assert(somes(found).contains(methods[i]));
                        let m = choose|m: int|
                            0 <= m < somes(found).len() && somes(found)[m] == methods[i];
                        assert(found.contains(Some(somes(found)[m])));
                        let k = choose|k: int|
                            0 <= k < found.len() && found[k] == Some(methods[i]);
                        assert(results[k] == Ok::<_, SchemaErrorView>(found[k]));
                        assert(results[k] == method_entry_of(path, entries[k]));
                        assert(well_keyed(entries[k].value));
                        lemma_method_well_formed(path, methods[i].0, entries[k].value);
                    }
                }
            }
        },
        _ => {},
    }
}

/// In what is read from a document, no path has two parameters of one
/// name or two operations under one method token. If the document is well
/// keyed, as every document that was read from YAML is, each description
/// is well formed, and no two of them are of the same path.
pub proof fn law_apis_well_formed(document: NodeView)
    ensures
        apis_of(document) matches Ok(apis) ==> {
            &&& forall|i: int|
                0 <= i < apis.len() ==> distinct_keys((#[trigger] apis[i]).param_map)
                    && distinct_keys(apis[i].method_map)
            &&& well_keyed(document) ==> distinct_paths(apis) && forall|i: int|
                0 <= i < apis.len() ==> api_well_formed(#[trigger] apis[i])
        },
{
    match lookup(document, "paths"@) {
        NodeView::Table(paths) => {
            let results = described_paths(paths);
            if collect(results) is Ok {
                let apis = collect(results)->Ok_0;
                lemma_collect_ok(results);
                assert forall|i: int| 0 <= i < apis.len() implies paths[i].key == NodeView::Text(
                    apis[i].path,
                ) && distinct_keys((#[trigger] apis[i]).param_map) && distinct_keys(
                    apis[i].method_map,
                ) && (well_keyed(paths[i].value) ==> api_well_formed(apis[i])) by {
                    assert(results[i] == api_of(i as nat, paths[i]));
                    let path = apis[i].path;
                    let item = paths[i].value;
                    lemma_methods_well_formed(path, item);
                    let declared = declared_params(path, items_of(lookup(item, "parameters"@)));
                    law_upsert_all(collect(declared)->Ok_0);
                }
                if well_keyed(document) {
                    lemma_lookup_well_keyed(document, "paths"@);
                    assert forall|i: int| 0 <= i < apis.len() implies api_well_formed(
                        #[trigger] apis[i],
                    ) by {
                        assert(well_keyed(paths[i].value));
                    }
                    assert forall|i: int, j: int| 0 <= i < j < apis.len() implies (
                    #[trigger] apis[i]).path != (#[trigger] apis[j]).path by {
                        assert(paths[i].key == NodeView::Text(apis[i].path));
                        assert(paths[j].key == NodeView::Text(apis[j].path));
                        assert(paths[i].key != paths[j].key);
                    }
                }
            }
        },
        _ => {},
    }
}

fn parse_string_or_date(key: &str, declaration: &Node) -> (out: Result<Content, SchemaFault>)
    ensures
        result_view(out) == string_or_date(key@, declaration@),
{
    let format = match declaration.get("format") {
        Some(node) => node.as_text(),
        None => None,
    };
    match format {
        Some(format) => {
            if same_text(format, "date") {
                Ok(Content::Date)
            } else if format.unicode_len() == 0 {
                Ok(Content::String)
            } else {
                Err(SchemaFault::UnsupportedFormat { key: key.to_owned(), format: format.to_owned() })
            }
        },
        None => Ok(Content::String),
    }
}

fn parse_scalar(key: &str, name: &str, declaration: &Node) -> (out: Result<Content, SchemaFault>)
    ensures
        result_view(out) == scalar_of(key@, name@, declaration@),
{
    if same_text(name, "string") {
        parse_string_or_date(key, declaration)
    } else if same_text(name, "integer") {
        Ok(Content::Integer)
    } else if same_text(name, "number") {
        Ok(Content::Number)
    } else if same_text(name, "boolean") {
        Ok(Content::Boolean)
    } else {
        Err(SchemaFault::UnsupportedPropertyType { key: key.to_owned(), found: name.to_owned() })
    }
}

fn names_null(node: &Node) -> (out: bool)
    ensures
        out == is_null_name(node@),
{
    match node.as_text() {
        Some(name) => same_text(name, "null"),
        None => false,
    }
}

fn parse_union(key: &str, declaration: &Node, declared: Option<&Node>) -> (out: Result<
    Property,
    SchemaFault,
>)
    ensures
        result_view(out) == union_of(key@, declaration@, items_of(node_or_bad(declared))),
{
    let names = match declared {
        Some(node) => node.items(),
        None => None,
    };
    match names {
        Some(names) => {
            assert(names.deep_view() == items_of(node_or_bad(declared)));
            if names.len() != 2 {
                return Err(SchemaFault::MalformedTypeUnion { key: key.to_owned() });
            }
            assert(names.deep_view()[0] == names[0]@);
            assert(names.deep_view()[1] == names[1]@);
            let first_null = names_null(&names[0]);
            let second_null = names_null(&names[1]);
            if first_null == second_null {
                return Err(SchemaFault::MalformedTypeUnion { key: key.to_owned() });
            }
            let other = if first_null {
                &names[1]
            } else {
                &names[0]
            };
            match other.as_text() {
                Some(name) => match parse_scalar(key, name, declaration) {
                    Ok(value) => Ok(Property { key: key.to_owned(), value, or_null: true }),
                    Err(error) => Err(error),
                },
                None => Err(SchemaFault::MalformedTypeUnion { key: key.to_owned() }),
            }
        },
        None => Err(SchemaFault::MalformedTypeUnion { key: key.to_owned() }),
    }
}

/// The key of an owner, as a string of its own.
fn owned_key(owner: Option<&str>) -> (out: Option<String>)
    ensures
        out.deep_view() == owner.deep_view(),
{
    match owner {
        Some(key) => Some(key.to_owned()),
        None => None,
    }
}

/// Reads the content that a schema node describes. The owner is the key
/// of the property that the node is the declaration of, if it is one.
pub fn parse_schema(owner: Option<&str>, node: &Node) -> (out: Result<Option<Content>, SchemaFault>)
    ensures
        result_view(out) == schema_of(owner.deep_view(), node@),
    decreases node@, 2nat,
{
    if node.entries().is_none() {
        return Ok(None);
    }
    let kind = match node.get("type") {
        Some(kind) => kind.as_text(),
        None => None,
    };
    let kind = match kind {
        Some(kind) => kind,
        None => {
            return Ok(None);
        },
    };
    if same_text(kind, "object") {
        match node.get("properties") {
            Some(declared) => match parse_object(owner, declared) {
                Ok(properties) => {
                    proof {
                        lemma_object_view(properties);
                    }
                    Ok(Some(Content::Object(properties)))
                },
                Err(error) => Err(error),
            },
            None => Err(SchemaFault::MissingProperties { owner: owned_key(owner) }),
        }
    } else if same_text(kind, "array") {
        match node.get("items") {
            Some(items) => match parse_schema(owner, items) {
                Ok(Some(element)) => Ok(Some(Content::Array(Box::new(element)))),
                Ok(None) => Ok(None),
                Err(error) => Err(error),
            },
            None => Ok(None),
        }
    } else {
        Ok(None)
    }
}

/// Reads the properties that the node under `properties` declares.
pub fn parse_object(owner: Option<&str>, declared: &Node) -> (out: Result<
    Vec<Property>,
    SchemaFault,
>)
    ensures
        result_view(out) == object_of(owner.deep_view(), declared@),
    decreases declared@, 1nat,
{
    let declarations = match declared.entries() {
        Some(declarations) => declarations,
        None => {
            return Err(SchemaFault::MissingProperties { owner: owned_key(owner) });
        },
    };
    let ghost views = declarations.deep_view();
    let mut k: usize = 0;
    while k < declarations.len()
        invariant
            k <= declarations.len(),
            views == declarations.deep_view(),
            declared@ == NodeView::Table(views),
            forall|j: int| 0 <= j < k ==> !has_other_key()(#[trigger] views[j]),
        decreases declarations.len() - k,
    {
        assert(views[k as int] == declarations[k as int]@);
        if declarations[k].key.as_text().is_none() {
            proof {
                lemma_first_index_is(views, has_other_key(), k as int);
            }
            return Err(
                SchemaFault::InvalidPropertyKey { owner: owned_key(owner), position: k },
            );
        }
        k = k + 1;
    }
    proof {
        lemma_first_index_is(views, has_other_key(), k as int);
    }
    let ghost results = declared_properties(views);
    let mut properties: Vec<Property> = Vec::new();
    let mut i: usize = 0;
    assert(results.take(0) == Seq::<Result<PropertyView, SchemaFaultView>>::empty());
    assert(properties.deep_view() == Seq::<PropertyView>::empty());
    while i < declarations.len()
        invariant
            i <= declarations.len(),
            views == declarations.deep_view(),
            declared@ == NodeView::Table(views),
            object_of(owner.deep_view(), declared@) == collect(results),
            results.len() == views.len(),
            forall|j: int| 0 <= j < views.len() ==> results[j] == property_of(#[trigger] views[j]),
            collect(results.take(i as int)) == Ok::<Seq<PropertyView>, SchemaFaultView>(
                properties.deep_view(),
            ),
        decreases declarations.len() - i,
    {
        assert(views[i as int] == declarations[i as int]@);
        proof {
            lemma_collect_step(results, i as int);
        }
        match parse_property(&declarations[i]) {
            Ok(property) => {
                let ghost before = properties.deep_view();
                properties.push(property);
                assert(properties.deep_view() == before.push(property@));
            },
            Err(error) => {
                proof {
                    lemma_collect_error(results, i + 1);
                }
                return Err(error);
            },
        }
        i = i + 1;
    }
    assert(results.take(i as int) == results);
    Ok(properties)
}

/// Reads the property that one entry under `properties` declares.
pub fn parse_property(entry: &Entry) -> (out: Result<Property, SchemaFault>)
    ensures
        result_view(out) == property_of(entry@),
    decreases entry@, 0nat,
{
    let key = match entry.key.as_text() {
        Some(key) => key,
        None => {
            return Err(SchemaFault::InvalidPropertyKey { owner: None, position: 0 });
        },
    };
    let declared = entry.value.get("type");
    let name = match declared {
        Some(node) => node.as_text(),
        None => None,
    };
    match name {
        Some(name) => {
            if same_text(name, "object") || same_text(name, "array") {
                match parse_schema(Some(key), &entry.value) {
                    Ok(Some(value)) => Ok(Property { key: key.to_owned(), value, or_null: false }),
                    Ok(None) => Err(SchemaFault::UnrepresentableProperty { key: key.to_owned() }),
                    Err(error) => Err(error),
                }
            } else {
                match parse_scalar(key, name, &entry.value) {
                    Ok(value) => Ok(Property { key: key.to_owned(), value, or_null: false }),
                    Err(error) => Err(error),
                }
            }
        },
        None => parse_union(key, &entry.value, declared),
    }
}

/// Reads the operation that stands under the method `token` of `path`.
pub fn parse_method(path: &str, token: &str, operation: &Node) -> (out: Result<Method, SchemaError>)
    ensures
        result_view(out) == method_of(path@, token@, operation@),
{
    let operation_id = match operation.get("operationId") {
        Some(node) => node.as_text(),
        None => None,
    };
    let operation_id = match operation_id {
        Some(operation_id) => operation_id,
        None => {
            return Err(
                SchemaError::MissingOperationId { path: path.to_owned(), method: token.to_owned() },
            );
        },
    };
    let summary = match operation.get("summary") {
        Some(node) => node.as_text(),
        None => None,
    };
    let summary = match summary {
        Some(summary) => summary,
        None => {
            return Err(
                SchemaError::BlankSummary { path: path.to_owned(), method: token.to_owned() },
            );
        },
    };
    if blank(summary) {
        return Err(SchemaError::BlankSummary { path: path.to_owned(), method: token.to_owned() });
    }
    let response = get_in(
        get_in(get_in(get_in(operation.get("responses"), "200"), "content"), "application/json"),
        "schema",
    );
    let response_opt = match response {
        Some(schema) => match parse_schema(None, schema) {
            Ok(content) => content,
            Err(fault) => {
                return Err(
                    SchemaError::InvalidSchema {
                        path: path.to_owned(),
                        method: token.to_owned(),
                        side: Side::Response,
                        fault,
                    },
                );
            },
        },
        None => None,
    };
    let request = get_in(
        get_in(get_in(operation.get("requestBody"), "content"), "application/json"),
        "schema",
    );
    let request_body_opt = match request {
        Some(schema) => match parse_schema(None, schema) {
            Ok(content) => content,
            Err(fault) => {
                return Err(
                    SchemaError::InvalidSchema {
                        path: path.to_owned(),
                        method: token.to_owned(),
                        side: Side::RequestBody,
                        fault,
                    },
                );
            },
        },
        None => None,
    };
    Ok(
        Method {
            operation_id: operation_id.to_owned(),
            summary: summary.to_owned(),
            response_opt,
            request_body_opt,
        },
    )
}

/// Reads the operations of a path.
pub fn parse_methods(path: &str, item: &Node) -> (out: Result<Vec<(String, Method)>, SchemaError>)
    ensures
        result_view(out) == methods_of(path@, item@),
{
    let mut methods: Vec<(String, Method)> = Vec::new();
    assert(methods.deep_view() == Seq::<(Seq<char>, MethodView)>::empty());
    let entries = match item.entries() {
        Some(entries) => entries,
        None => {
            return Ok(methods);
        },
    };
    let ghost views = entries.deep_view();
    let ghost results = method_entries(path@, views);
    let ghost found = Seq::<Option<(Seq<char>, MethodView)>>::empty();
    assert(results.take(0) == Seq::<
        Result<Option<(Seq<char>, MethodView)>, SchemaErrorView>,
    >::empty());
    let mut i: usize = 0;
    while i < entries.len()
        invariant
            i <= entries.len(),
            views == entries.deep_view(),
            item@ == NodeView::Table(views),
            results == method_entries(path@, views),
            collect(results.take(i as int)) == Ok::<_, SchemaErrorView>(found),
            methods.deep_view() == upsert_all(somes(found)),
        decreases entries.len() - i,
    {
        assert(views[i as int] == entries[i as int]@);
        proof {
            lemma_collect_step(results, i as int);
        }
        let token = match entries[i].key.as_text() {
            Some(token) => token,
            None => {
                proof {
                    lemma_collect_error(results, i + 1);
                }
                return Err(SchemaError::InvalidMethodKey { path: path.to_owned() });
            },
        };
        if same_text(token, "parameters") {
            proof {
                lemma_somes_push(found, None);
                found = found.push(None);
            }
        } else {
            match parse_method(path, token, &entries[i].value) {
                Ok(method) => {
                    proof {
                        lemma_somes_push(found, Some((token@, method@)));
                        lemma_upsert_all_push(somes(found), token@, method@);
                        found = found.push(Some((token@, method@)));
                    }
                    insert_keyed(&mut methods, token.to_owned(), method);
                },
                Err(error) => {
                    proof {
                        lemma_collect_error(results, i + 1);
                    }
                    return Err(error);
                },
            }
        }
        i = i + 1;
    }
    assert(results.take(i as int) == results);
    Ok(methods)
}

/// Reads the name and type that one parameter of `path` declares.
pub fn parse_param(path: &str, parameter: &Node) -> (out: Result<(String, ParamType), SchemaError>)
    ensures
        result_view(out) == param_of(path@, parameter@),
{
    let name = match parameter.get("name") {
        Some(node) => node.as_text(),
        None => None,
    };
    let name = match name {
        Some(name) => name,
        None => {
            return Err(SchemaError::MissingParameterName { path: path.to_owned() });
        },
    };
    let declared = match get_in(parameter.get("schema"), "type") {
        Some(node) => node.as_text(),
        None => None,
    };
    match declared {
        Some(declared) => {
            if same_text(declared, "integer") {
                Ok((name.to_owned(), ParamType::Integer))
            } else if same_text(declared, "string") {
                Ok((name.to_owned(), ParamType::String))
            } else {
                Err(
                    SchemaError::UnknownParameterType {
                        path: path.to_owned(),
                        name: name.to_owned(),
                        declared: Some(declared.to_owned()),
                    },
                )
            }
        },
        None => Err(
            SchemaError::UnknownParameterType {
                path: path.to_owned(),
                name: name.to_owned(),
                declared: None,
            },
        ),
    }
}

/// Reads the parameters of a path.
pub fn parse_params(path: &str, item: &Node) -> (out: Result<Vec<(String, ParamType)>, SchemaError>)
    ensures
        result_view(out) == params_of(path@, item@),
{
    let mut params: Vec<(String, ParamType)> = Vec::new();
    assert(params.deep_view() == Seq::<(Seq<char>, ParamType)>::empty());
    assert(Seq::<Result<(Seq<char>, ParamType), SchemaErrorView>>::empty().take(0)
        == Seq::<Result<(Seq<char>, ParamType), SchemaErrorView>>::empty());
    let parameters = match item.get("parameters") {
        Some(node) => node.items(),
        None => None,
    };
    let parameters = match parameters {
        Some(parameters) => parameters,
        None => {
            assert(declared_params(path@, Seq::empty()) == Seq::<
                Result<(Seq<char>, ParamType), SchemaErrorView>,
            >::empty());
            return Ok(params);
        },
    };
    let ghost views = parameters.deep_view();
    let ghost results = declared_params(path@, views);
    let ghost pairs = Seq::<(Seq<char>, ParamType)>::empty();
    assert(results.take(0) == Seq::<Result<(Seq<char>, ParamType), SchemaErrorView>>::empty());
    let mut i: usize = 0;
    while i < parameters.len()
        invariant
            i <= parameters.len(),
            views == parameters.deep_view(),
            items_of(lookup(item@, "parameters"@)) == views,
            results == declared_params(path@, views),
            collect(results.take(i as int)) == Ok::<_, SchemaErrorView>(pairs),
            params.deep_view() == upsert_all(pairs),
        decreases parameters.len() - i,
    {
        assert(views[i as int] == parameters[i as int]@);
        proof {
            lemma_collect_step(results, i as int);
        }
        match parse_param(path, &parameters[i]) {
            Ok((name, kind)) => {
                proof {
                    lemma_upsert_all_push(pairs, name@, kind);
                    pairs = pairs.push((name@, kind));
                }
                insert_keyed(&mut params, name, kind);
            },
            Err(error) => {
                proof {
                    lemma_collect_error(results, i + 1);
                }
                return Err(error);
            },
        }
        i = i + 1;
    }
    assert(results.take(i as int) == results);
    Ok(params)
}

/// Reads the description of one path: one entry under `paths`.
pub fn parse_api(position: usize, entry: &Entry) -> (out: Result<Api, SchemaError>)
    ensures
        result_view(out) == api_of(position as nat, entry@),
{
    let path = match entry.key.as_text() {
        Some(path) => path,
        None => {
            return Err(SchemaError::InvalidPathKey { position });
        },
    };
    let param_map = match parse_params(path, &entry.value) {
        Ok(param_map) => param_map,
        Err(error) => {
            return Err(error);
        },
    };
    let method_map = match parse_methods(path, &entry.value) {
        Ok(method_map) => method_map,
        Err(error) => {
            return Err(error);
        },
    };
    Ok(Api { path: path.to_owned(), param_map, method_map })
}

/// Reads the descriptions of all paths of a document, in its order. The
/// document is refused for the first thing in it that is not supported.
pub fn from_yaml(yaml: &Node) -> (out: Result<Vec<Api>, SchemaError>)
    ensures
        result_view(out) == apis_of(yaml@),
{
    let paths = match yaml.get("paths") {
        Some(node) => node.entries(),
        None => None,
    };
    let paths = match paths {
        Some(paths) => paths,
        None => {
            return Err(SchemaError::MissingPaths);
        },
    };
    let ghost views = paths.deep_view();
    let ghost results = described_paths(views);
    let mut apis: Vec<Api> = Vec::new();
    assert(apis.deep_view() == Seq::<ApiView>::empty());
    assert(results.take(0) == Seq::<Result<ApiView, SchemaErrorView>>::empty());
    let mut i: usize = 0;
    while i < paths.len()
        invariant
            i <= paths.len(),
            views == paths.deep_view(),
            lookup(yaml@, "paths"@) == NodeView::Table(views),
            results == described_paths(views),
            collect(results.take(i as int)) == Ok::<_, SchemaErrorView>(apis.deep_view()),
        decreases paths.len() - i,
    {
        assert(views[i as int] == paths[i as int]@);
        proof {
            lemma_collect_step(results, i as int);
        }
        match parse_api(i, &paths[i]) {
            Ok(api) => {
                let ghost before = apis.deep_view();
                apis.push(api);
                assert(apis.deep_view() == before.push(api@));
            },
            Err(error) => {
                proof {
                    lemma_collect_error(results, i + 1);
                }
                return Err(error);
            },
        }
        i = i + 1;
    }
    assert(results.take(i as int) == results);
    Ok(apis)
}

} // verus!
