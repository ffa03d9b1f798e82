//! The ways in which a description can be refused.

use vstd::prelude::*;

verus! {

/// The body of an operation that a schema describes.
#[derive(Debug, PartialEq, Eq, Clone, Copy)]
pub enum Side {
    Response,
    RequestBody,
}

/// What is wrong within a schema. Each case names the property at which
/// it was found.
#[derive(Debug, PartialEq, Eq, Clone)]
pub enum SchemaFault {
    /// An object schema has no mapping under `properties`. The owner is the
    /// key of the property that the object is the value of, and none for
    /// the schema of the body itself.
    MissingProperties { owner: Option<String> },
    /// A key under `properties` is not a string: the key of the entry in
    /// the given position, counted from zero, of the object of that owner.
    InvalidPropertyKey { owner: Option<String>, position: usize },
    /// The property's type is none of the supported ones.
    UnsupportedPropertyType { key: String, found: String },
    /// The property's type is a list that is not one supported scalar type
    /// together with `null`.
    MalformedTypeUnion { key: String },
    /// The string property's format is not `date`.
    UnsupportedFormat { key: String, format: String },
    /// The property is an object or an array whose schema has no content.
    UnrepresentableProperty { key: String },
}

/// The document lies outside the supported subset. Each case names what is
/// needed to find the offending place again.
#[derive(Debug, PartialEq, Eq, Clone)]
pub enum SchemaError {
    /// There is no mapping under `paths` at the top of the document.
    MissingPaths,
    /// A key under `paths` is not a string: the key of the entry in the
    /// given position, counted from zero.
    InvalidPathKey { position: usize },
    /// A key under the path is not a string.
    InvalidMethodKey { path: String },
    /// A parameter of the path has no string under `name`.
    MissingParameterName { path: String },
    /// A parameter's type is neither `integer` nor `string`.
    UnknownParameterType { path: String, name: String, declared: Option<String> },
    /// The operation has no string under `operationId`.
    MissingOperationId { path: String, method: String },
    /// The operation's summary is missing or blank.
    BlankSummary { path: String, method: String },
    /// The schema of one body of the operation is refused.
    InvalidSchema { path: String, method: String, side: Side, fault: SchemaFault },
}

/// A text holds no description that can be read.
#[derive(Debug, PartialEq, Eq, Clone)]
pub enum LoadError {
    /// The text is not well-formed YAML.
    Syntax,
    /// The text holds no document.
    NoDocument,
    /// The first document of the text is refused.
    Schema(SchemaError),
}

/// A route cannot be written.
#[derive(Debug, PartialEq, Eq, Clone)]
pub enum RouteError {
    /// The method token is none of `get`, `post`, `put`, `delete`.
    UnsupportedMethod { method: String },
}

/// The mathematical value of a [`SchemaFault`].
pub enum SchemaFaultView {
    MissingProperties { owner: Option<Seq<char>> },
    InvalidPropertyKey { owner: Option<Seq<char>>, position: nat },
    UnsupportedPropertyType { key: Seq<char>, found: Seq<char> },
    MalformedTypeUnion { key: Seq<char> },
    UnsupportedFormat { key: Seq<char>, format: Seq<char> },
    UnrepresentableProperty { key: Seq<char> },
}

/// The mathematical value of a [`SchemaError`].
pub enum SchemaErrorView {
    MissingPaths,
    InvalidPathKey { position: nat },
    InvalidMethodKey { path: Seq<char> },
    MissingParameterName { path: Seq<char> },
    UnknownParameterType { path: Seq<char>, name: Seq<char>, declared: Option<Seq<char>> },
    MissingOperationId { path: Seq<char>, method: Seq<char> },
    BlankSummary { path: Seq<char>, method: Seq<char> },
    InvalidSchema { path: Seq<char>, method: Seq<char>, side: Side, fault: SchemaFaultView },
}

/// The mathematical value of a [`LoadError`].
pub enum LoadErrorView {
    Syntax,
    NoDocument,
    Schema(SchemaErrorView),
}

/// The mathematical value of a [`RouteError`].
pub enum RouteErrorView {
    UnsupportedMethod { method: Seq<char> },
}

impl DeepView for SchemaFault {
    type V = SchemaFaultView;

    open spec fn deep_view(&self) -> SchemaFaultView {
        match self {
            SchemaFault::MissingProperties { owner } => SchemaFaultView::MissingProperties {
                owner: owner.deep_view(),
            },
            SchemaFault::InvalidPropertyKey {
                owner,
                position,
            } => SchemaFaultView::InvalidPropertyKey {
                owner: owner.deep_view(),
                position: *position as nat,
            },
            SchemaFault::UnsupportedPropertyType {
                key,
                found,
            } => SchemaFaultView::UnsupportedPropertyType { key: key@, found: found@ },
            SchemaFault::MalformedTypeUnion { key } => SchemaFaultView::MalformedTypeUnion {
                key: key@,
            },
            SchemaFault::UnsupportedFormat { key, format } => SchemaFaultView::UnsupportedFormat {
                key: key@,
                format: format@,
            },
            SchemaFault::UnrepresentableProperty {
                key,
            } => SchemaFaultView::UnrepresentableProperty { key: key@ },
        }
    }
}

impl View for SchemaFault {
    type V = SchemaFaultView;

    open spec fn view(&self) -> SchemaFaultView {
        self.deep_view()
    }
}

impl DeepView for SchemaError {
    type V = SchemaErrorView;

    open spec fn deep_view(&self) -> SchemaErrorView {
        match self {
            SchemaError::MissingPaths => SchemaErrorView::MissingPaths,
            SchemaError::InvalidPathKey { position } => SchemaErrorView::InvalidPathKey {
                position: *position as nat,
            },
            SchemaError::InvalidMethodKey { path } => SchemaErrorView::InvalidMethodKey {
                path: path@,
            },
            SchemaError::MissingParameterName { path } => SchemaErrorView::MissingParameterName {
                path: path@,
            },
            SchemaError::UnknownParameterType {
                path,
                name,
                declared,
            } => SchemaErrorView::UnknownParameterType {
                path: path@,
                name: name@,
                declared: declared.deep_view(),
            },
            SchemaError::MissingOperationId { path, method } => SchemaErrorView::MissingOperationId {
                path: path@,
                method: method@,
            },
            SchemaError::BlankSummary { path, method } => SchemaErrorView::BlankSummary {
                path: path@,
                method: method@,
            },
            SchemaError::InvalidSchema {
                path,
                method,
                side,
                fault,
            } => SchemaErrorView::InvalidSchema {
                path: path@,
                method: method@,
                side: *side,
                fault: fault.deep_view(),
            },
        }
    }
}

impl View for SchemaError {
    type V = SchemaErrorView;

    open spec fn view(&self) -> SchemaErrorView {
        self.deep_view()
    }
}

impl DeepView for LoadError {
    type V = LoadErrorView;

    open spec fn deep_view(&self) -> LoadErrorView {
        match self {
            LoadError::Syntax => LoadErrorView::Syntax,
            LoadError::NoDocument => LoadErrorView::NoDocument,
            LoadError::Schema(error) => LoadErrorView::Schema(error.deep_view()),
        }
    }
}

impl View for LoadError {
    type V = LoadErrorView;

    open spec fn view(&self) -> LoadErrorView {
        self.deep_view()
    }
}

impl DeepView for RouteError {
    type V = RouteErrorView;

    open spec fn deep_view(&self) -> RouteErrorView {
        match self {
            RouteError::UnsupportedMethod { method } => RouteErrorView::UnsupportedMethod {
                method: method@,
            },
        }
    }
}

impl View for RouteError {
    type V = RouteErrorView;

    open spec fn view(&self) -> RouteErrorView {
        self.deep_view()
    }
}

/// The mathematical value of a result: that of what it holds.
pub open spec fn result_view<T: DeepView, E: DeepView>(result: Result<T, E>) -> Result<T::V, E::V> {
    match result {
        Ok(value) => Ok(value.deep_view()),
        Err(error) => Err(error.deep_view()),
    }
}

} // verus!
