//! The canonical description of an API: for each path its parameters and
//! operations, and for each operation the shape of what it takes and gives.

use vstd::prelude::*;
use crate::sequence::distinct_keys;
use crate::text::is_blank;

verus! {

/// The shape of a value in a request or a response.
#[derive(Debug, PartialEq)]
pub enum Content {
    /// A homogeneous list and the shape of its elements.
    Array(Box<Content>),
    /// A record and its properties, in the order of the document.
    Object(Vec<Property>),
    String,
    Integer,
    Number,
    Boolean,
    /// A string that holds a date.
    Date,
}

/// A named field of an object.
#[derive(Debug, PartialEq)]
pub struct Property {
    pub key: String,
    pub value: Content,
    /// Whether the document allows null in place of the value.
    pub or_null: bool,
}

/// The type of a path parameter.
#[derive(Debug, PartialEq, Eq, Clone, Copy)]
pub enum ParamType {
    Integer,
    String,
}

/// One operation on a path.
#[derive(Debug, PartialEq)]
pub struct Method {
    pub operation_id: String,
    pub summary: String,
    pub response_opt: Option<Content>,
    pub request_body_opt: Option<Content>,
}

/// One path with its parameters and its operations. Both maps are kept in
/// the order in which their keys first came, and no key occurs twice.
#[derive(Debug, PartialEq)]
pub struct Api {
    pub path: String,
    pub param_map: Vec<(String, ParamType)>,
    pub method_map: Vec<(String, Method)>,
}

/// The mathematical value of a [`Content`].
pub enum ContentView {
    Array(Box<ContentView>),
    Object(Seq<PropertyView>),
    String,
    Integer,
    Number,
    Boolean,
    Date,
}

/// The mathematical value of a [`Property`].
pub struct PropertyView {
    pub key: Seq<char>,
    pub value: ContentView,
    pub or_null: bool,
}

/// The mathematical value of a [`Method`].
pub struct MethodView {
    pub operation_id: Seq<char>,
    pub summary: Seq<char>,
    pub response_opt: Option<ContentView>,
    pub request_body_opt: Option<ContentView>,
}

/// The mathematical value of an [`Api`].
pub struct ApiView {
    pub path: Seq<char>,
    pub param_map: Seq<(Seq<char>, ParamType)>,
    pub method_map: Seq<(Seq<char>, MethodView)>,
}

pub open spec fn content_view(content: Content) -> ContentView
    decreases content,
{
    match content {
        Content::Array(inner) => ContentView::Array(Box::new(content_view(*inner))),
        Content::Object(properties) => ContentView::Object(
            Seq::new(
                properties.len() as nat,
                |i: int|
                    if 0 <= i < properties.len() {
                        property_view(properties[i])
                    } else {
                        arbitrary()
                    },
            ),
        ),
        Content::String => ContentView::String,
        Content::Integer => ContentView::Integer,
        Content::Number => ContentView::Number,
        Content::Boolean => ContentView::Boolean,
        Content::Date => ContentView::Date,
    }
}

pub open spec fn property_view(property: Property) -> PropertyView
    decreases property,
{
    PropertyView {
        key: property.key@,
        value: content_view(property.value),
        or_null: property.or_null,
    }
}

impl DeepView for Content {
    type V = ContentView;

    open spec fn deep_view(&self) -> ContentView {
        content_view(*self)
    }
}

impl View for Content {
    type V = ContentView;

    open spec fn view(&self) -> ContentView {
        content_view(*self)
    }
}

impl DeepView for Property {
    type V = PropertyView;

    open spec fn deep_view(&self) -> PropertyView {
        property_view(*self)
    }
}

impl View for Property {
    type V = PropertyView;

    open spec fn view(&self) -> PropertyView {
        property_view(*self)
    }
}

impl DeepView for ParamType {
    type V = ParamType;

    open spec fn deep_view(&self) -> ParamType {
        *self
    }
}

impl View for ParamType {
    type V = ParamType;

    open spec fn view(&self) -> ParamType {
        *self
    }
}

impl DeepView for Method {
    type V = MethodView;

    open spec fn deep_view(&self) -> MethodView {
        MethodView {
            operation_id: self.operation_id@,
            summary: self.summary@,
            response_opt: self.response_opt.deep_view(),
            request_body_opt: self.request_body_opt.deep_view(),
        }
    }
}

impl View for Method {
    type V = MethodView;

    open spec fn view(&self) -> MethodView {
        self.deep_view()
    }
}

impl DeepView for Api {
    type V = ApiView;

    open spec fn deep_view(&self) -> ApiView {
        ApiView {
            path: self.path@,
            param_map: self.param_map.deep_view(),
            method_map: self.method_map.deep_view(),
        }
    }
}

impl View for Api {
    type V = ApiView;

    open spec fn view(&self) -> ApiView {
        self.deep_view()
    }
}

/// Whether no two properties have the same key.
pub open spec fn distinct_properties(properties: Seq<PropertyView>) -> bool {
    forall|i: int, j: int|
        0 <= i < j < properties.len() ==> (#[trigger] properties[i]).key != (
        #[trigger] properties[j]).key
}

/// A shape in which the properties of each object have keys of their own.
pub open spec fn well_formed(content: ContentView) -> bool
    decreases content,
{
    match content {
        ContentView::Array(element) => well_formed(*element),
        ContentView::Object(properties) => distinct_properties(properties) && forall|i: int|
            0 <= i < properties.len() ==> well_formed((#[trigger] properties[i]).value),
        _ => true,
    }
}

/// An operation with a summary that is not blank, and well-formed shapes
/// for what it takes and gives.
pub open spec fn method_well_formed(method: MethodView) -> bool {
    &&& !is_blank(method.summary)
    &&& method.response_opt matches Some(content) ==> well_formed(content)
    &&& method.request_body_opt matches Some(content) ==> well_formed(content)
}

/// A path whose parameters have names of their own, and whose operations
/// have method tokens of their own and are well formed.
pub open spec fn api_well_formed(api: ApiView) -> bool {
    &&& distinct_keys(api.param_map)
    &&& distinct_keys(api.method_map)
    &&& forall|i: int|
        0 <= i < api.method_map.len() ==> method_well_formed((#[trigger] api.method_map[i]).1)
}

/// The view of an object is the sequence of the views of its properties.
pub proof fn lemma_object_view(properties: Vec<Property>)
    ensures
        Content::Object(properties)@ == ContentView::Object(properties.deep_view()),
{
    assert(Content::Object(properties)@->Object_0 =~= properties.deep_view());
}

impl Clone for Content {
    /// A copy of the same shape.
    fn clone(&self) -> (out: Self)
        ensures
            out@ == self@,
        decreases self@,
    {
        match self {
            Content::Array(element) => {
                assert(*self@->Array_0 == element@);
                Content::Array(Box::new((&**element).clone()))
            },
            Content::Object(properties) => {
                proof {
                    lemma_object_view(*properties);
                }
                let ghost views = properties.deep_view();
                let mut copies: Vec<Property> = Vec::new();
                let mut i: usize = 0;
                while i < properties.len()
                    invariant
                        i <= properties.len(),
                        views == properties.deep_view(),
                        self@ == ContentView::Object(views),
                        copies.deep_view() == views.take(i as int),
                    decreases properties.len() - i,
                {
                    assert(views[i as int] == properties[i as int]@);
                    let property = &properties[i];
                    assert(property.value@ == self@->Object_0[i as int].value);
                    let copy = Property {
                        key: property.key.clone(),
                        value: property.value.clone(),
                        or_null: property.or_null,
                    };
                    let ghost before = copies.deep_view();
                    copies.push(copy);
                    assert(copies.deep_view() == before.push(copy@));
                    i = i + 1;
                    assert(views.take(i as int) == views.take(i - 1).push(views[i - 1]));
                }
                assert(views.take(i as int) == views);
                proof {
                    lemma_object_view(copies);
                }
                Content::Object(copies)
            },
            Content::String => Content::String,
            Content::Integer => Content::Integer,
            Content::Number => Content::Number,
            Content::Boolean => Content::Boolean,
            Content::Date => Content::Date,
        }
    }
}

impl Clone for Property {
    /// A copy with the same key, value and nullability.
    fn clone(&self) -> (out: Self)
        ensures
            out@ == self@,
    {
        Property { key: self.key.clone(), value: self.value.clone(), or_null: self.or_null }
    }
}

impl Clone for Method {
    /// A copy of the same operation.
    fn clone(&self) -> (out: Self)
        ensures
            out@ == self@,
    {
        Method {
            operation_id: self.operation_id.clone(),
            summary: self.summary.clone(),
            response_opt: match &self.response_opt {
                Some(content) => Some(content.clone()),
                None => None,
            },
            request_body_opt: match &self.request_body_opt {
                Some(content) => Some(content.clone()),
                None => None,
            },
        }
    }
}

impl Clone for Api {
    /// A copy of the same description.
    fn clone(&self) -> (out: Self)
        ensures
            out@ == self@,
    {
        let mut param_map: Vec<(String, ParamType)> = Vec::new();
        let mut i: usize = 0;
        while i < self.param_map.len()
            invariant
                i <= self.param_map.len(),
                param_map.deep_view() == self.param_map.deep_view().take(i as int),
            decreases self.param_map.len() - i,
        {
            assert(self.param_map.deep_view()[i as int] == self.param_map[i as int].deep_view());
            let ghost before = param_map.deep_view();
            let pair = (self.param_map[i].0.clone(), self.param_map[i].1);
            param_map.push(pair);
            assert(param_map.deep_view() == before.push(pair.deep_view()));
            i = i + 1;
            assert(self.param_map.deep_view().take(i as int) == self.param_map.deep_view().take(
                i - 1,
            ).push(self.param_map.deep_view()[i - 1]));
        }
        assert(self.param_map.deep_view().take(i as int) == self.param_map.deep_view());
        let mut method_map: Vec<(String, Method)> = Vec::new();
        let mut k: usize = 0;
        while k < self.method_map.len()
            invariant
                k <= self.method_map.len(),
                method_map.deep_view() == self.method_map.deep_view().take(k as int),
            decreases self.method_map.len() - k,
        {
            assert(self.method_map.deep_view()[k as int] == self.method_map[k as int].deep_view());
            let ghost before = method_map.deep_view();
            let pair = (self.method_map[k].0.clone(), self.method_map[k].1.clone());
            method_map.push(pair);
            assert(method_map.deep_view() == before.push(pair.deep_view()));
            k = k + 1;
            assert(self.method_map.deep_view().take(k as int) == self.method_map.deep_view().take(
                k - 1,
            ).push(self.method_map.deep_view()[k - 1]));
        }
        assert(self.method_map.deep_view().take(k as int) == self.method_map.deep_view());
        Api { path: self.path.clone(), param_map, method_map }
    }
}

} // verus!
