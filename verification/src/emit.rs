//! Writing the shape of a value as type declarations, in Scala or in
//! TypeScript. Every object that occurs in the shape gets a declaration of
//! its own, and all of them stand side by side: the outermost first, then
//! the others in the order of the properties that own them.

use vstd::prelude::*;
use vstd::string::StringExecFns;
use crate::schema::{lemma_object_view, Content, ContentView, Method, Property, PropertyView};
use crate::text::{chars_of, join, push_char, string_of};

verus! {

/// The language in which declarations are written.
#[derive(Debug, PartialEq, Eq, Clone, Copy)]
pub enum Target {
    Scala,
    TypeScript,
}

/// What a declaration is for: data that comes in, or data that goes out.
#[derive(Debug, PartialEq, Eq, Clone, Copy)]
pub enum Role {
    Command,
    ViewModel,
}

/// The upper-case mapping of a character in Unicode: what `char::to_uppercase`
/// of the standard library yields.
pub uninterp spec fn uppercase_of(c: char) -> Seq<char>;

/// A character in upper case. The letters `a` to `z` become `A` to `Z`, any
/// other ASCII character stays, and a character outside ASCII has its
/// upper-case mapping in Unicode.
pub open spec fn upper(c: char) -> Seq<char> {
    let code = c as u32;
    if 97 <= code <= 122 {
        seq![((code - 32) as u8) as char]
    } else if code < 128 {
        seq![c]
    } else {
        uppercase_of(c)
    }
}

/// A key without its first character.
pub open spec fn tail(key: Seq<char>) -> Seq<char> {
    if key.len() == 0 {
        key
    } else {
        key.skip(1)
    }
}

/// A key with its first character in upper case.
pub open spec fn capitalized(key: Seq<char>) -> Seq<char> {
    if key.len() == 0 {
        key
    } else {
        upper(key[0]) + tail(key)
    }
}

/// The name of a scalar type in the target language. A date that comes in
/// and a date that goes out differ in Scala, and only there.
pub open spec fn scalar_name(target: Target, role: Role, content: ContentView) -> Seq<char> {
    match target {
        Target::Scala => match content {
            ContentView::String => "String"@,
            ContentView::Integer => "Int or Long"@,
            ContentView::Number => "Float"@,
            ContentView::Boolean => "Boolean"@,
            ContentView::Date => match role {
                Role::Command => "ZonedDateTime"@,
                Role::ViewModel => "Instant"@,
            },
            _ => Seq::empty(),
        },
        Target::TypeScript => match content {
            ContentView::String => "string"@,
            ContentView::Integer => "number"@,
            ContentView::Number => "number"@,
            ContentView::Boolean => "boolean"@,
            ContentView::Date => "Date"@,
            _ => Seq::empty(),
        },
    }
}

/// The type of the lists of `element`.
pub open spec fn array_of(target: Target, element: Seq<char>) -> Seq<char> {
    match target {
        Target::Scala => "Seq["@ + element + "]"@,
        Target::TypeScript => element + "[]"@,
    }
}

/// The type by which a value is referred to. An object is referred to by
/// `name`, the name under which it is declared; a list wraps the type of
/// its elements.
pub open spec fn type_ref(target: Target, role: Role, name: Seq<char>, content: ContentView) -> Seq<
    char,
>
    decreases content,
{
    match content {
        ContentView::Object(_) => name,
        ContentView::Array(element) => array_of(target, type_ref(target, role, name, *element)),
        _ => scalar_name(target, role, content),
    }
}

/// One field of a declaration: the key and the type of the value. An object
/// under the key is declared under the capitalized key.
pub open spec fn field(target: Target, role: Role, property: PropertyView) -> Seq<char> {
    property.key + ": "@ + type_ref(target, role, capitalized(property.key), property.value)
}

/// The fields of a declaration, in the order of the properties.
pub open spec fn fields(target: Target, role: Role, properties: Seq<PropertyView>) -> Seq<
    Seq<char>,
> {
    Seq::new(properties.len(), |i: int| field(target, role, properties[i]))
}

/// The declaration of an object under `name`.
pub open spec fn declaration(
    target: Target,
    role: Role,
    name: Seq<char>,
    properties: Seq<PropertyView>,
) -> Seq<char> {
    match target {
        Target::Scala => "case class "@ + name + "("@ + join(
            fields(target, role, properties),
            ",\n"@,
        ) + ")"@,
        Target::TypeScript => "type "@ + name + "={"@ + join(
            fields(target, role, properties),
            ",\n"@,
        ) + "}"@,
    }
}

/// An object to declare: its name, its properties, and whether it comes
/// after another object of the same owner.
pub struct DeclarationView {
    pub name: Seq<char>,
    pub properties: Seq<PropertyView>,
    pub follows: bool,
}

/// The objects to declare for a value that is referred to by `name`: the
/// value itself if it is an object, or the elements of a list of objects,
/// and then the objects that this one owns.
pub open spec fn declarations(name: Seq<char>, content: ContentView, follows: bool) -> Seq<
    DeclarationView,
>
    decreases content, 0nat,
{
    match content {
        ContentView::Object(properties) => seq![DeclarationView { name, properties, follows }]
            + owned(properties, properties.len()),
        ContentView::Array(element) => declarations(name, *element, follows),
        _ => Seq::empty(),
    }
}

/// The objects to declare for the first `n` properties of an object, in
/// the order of the properties. Each is named by the capitalized key.
pub open spec fn owned(properties: Seq<PropertyView>, n: nat) -> Seq<DeclarationView>
    decreases properties, n,
{
    if n == 0 || n > properties.len() {
        Seq::empty()
    } else {
        let before = owned(properties, (n - 1) as nat);
        let property = properties[n - 1];
        before + declarations(capitalized(property.key), property.value, before.len() > 0)
    }
}

/// The text of the declarations, each on a line of its own. One that comes
/// after another object of the same owner is set off by a comma.
pub open spec fn rendered(target: Target, role: Role, objects: Seq<DeclarationView>) -> Seq<char>
    decreases objects.len(),
{
    if objects.len() == 0 {
        Seq::empty()
    } else {
        let last = objects.last();
        rendered(target, role, objects.drop_last()) + (if last.follows {
            ",\n"@
        } else {
            Seq::empty()
        }) + declaration(target, role, last.name, last.properties) + "\n"@
    }
}

/// The text for a value under the name `name`. An object gives its
/// declaration and those of the objects in it. Any other value gives the
/// type by which it is referred to and, on the lines after it, the
/// declarations of the objects in it.
pub open spec fn emitted(target: Target, role: Role, name: Seq<char>, content: ContentView) -> Seq<
    char,
> {
    let objects = declarations(name, content, false);
    if content is Object {
        rendered(target, role, objects)
    } else if objects.len() == 0 {
        type_ref(target, role, name, content)
    } else {
        type_ref(target, role, name, content) + "\n"@ + rendered(target, role, objects)
    }
}

/// The text of two runs of declarations, one behind the other, is the text
/// of the first followed by the text of the second.
pub proof fn lemma_rendered_add(
    target: Target,
    role: Role,
    first: Seq<DeclarationView>,
    second: Seq<DeclarationView>,
)
    ensures
        rendered(target, role, first + second) == rendered(target, role, first) + rendered(
            target,
            role,
            second,
        ),
    decreases second.len(),
{
    if second.len() == 0 {
        assert(first + second == first);
        assert(rendered(target, role, first) + Seq::<char>::empty() == rendered(
            target,
            role,
            first,
        ));
    } else {
        let all = first + second;
        assert(all.drop_last() == first + second.drop_last());
        assert(all.last() == second.last());
        lemma_rendered_add(target, role, first, second.drop_last());
        let last = second.last();
        let comma = if last.follows {
            ",\n"@
        } else {
            Seq::<char>::empty()
        };
        let line = declaration(target, role, last.name, last.properties);
        let a = rendered(target, role, first);
        let b = rendered(target, role, second.drop_last());
        assert((a + b) + comma + line + "\n"@ == a + (b + comma + line + "\n"@));
    }
}

/// The declaration of an object comes first in its text, on a line of its
/// own; the declarations of the objects that it owns come after it.
pub proof fn law_root_first(
    target: Target,
    role: Role,
    name: Seq<char>,
    properties: Seq<PropertyView>,
)
    ensures
        emitted(target, role, name, ContentView::Object(properties)) == declaration(
            target,
            role,
            name,
            properties,
        ) + "\n"@ + rendered(target, role, owned(properties, properties.len())),
{
    let root = DeclarationView { name, properties, follows: false };
    let rest = owned(properties, properties.len());
    let line = declaration(target, role, name, properties);
    let empty = Seq::<char>::empty();
    lemma_rendered_add(target, role, seq![root], rest);
    assert(seq![root].drop_last() == Seq::<DeclarationView>::empty());
    assert(seq![root].last() == root);
    assert(rendered(target, role, seq![root].drop_last()) == empty);
    assert(rendered(target, role, seq![root]) == empty + empty + line + "\n"@);
    assert(empty + empty + line + "\n"@ == line + "\n"@);
    assert(declarations(name, ContentView::Object(properties), false) == seq![root] + rest);
}

/// The declarations that an object owns stand in the order of its
/// properties: those that come from one property stand behind all those
/// that come from the properties before it.
pub proof fn law_owner_order(
    target: Target,
    role: Role,
    properties: Seq<PropertyView>,
    i: int,
)
    requires
        0 <= i < properties.len(),
    ensures
        rendered(target, role, owned(properties, (i + 1) as nat)) == rendered(
            target,
            role,
            owned(properties, i as nat),
        ) + rendered(
            target,
            role,
            declarations(
                capitalized(properties[i].key),
                properties[i].value,
                owned(properties, i as nat).len() > 0,
            ),
        ),
{
    let before = owned(properties, i as nat);
    let added = declarations(capitalized(properties[i].key), properties[i].value, before.len() > 0);
    assert(owned(properties, (i + 1) as nat) == before + added);
    lemma_rendered_add(target, role, before, added);
}

/// In TypeScript the type by which a value is referred to is the same for
/// both roles.
pub proof fn lemma_type_ref_typescript(
    first: Role,
    second: Role,
    name: Seq<char>,
    content: ContentView,
)
    ensures
        type_ref(Target::TypeScript, first, name, content) == type_ref(
            Target::TypeScript,
            second,
            name,
            content,
        ),
    decreases content,
{
    match content {
        ContentView::Array(element) => {
            lemma_type_ref_typescript(first, second, name, *element);
        },
        _ => {},
    }
}

/// In TypeScript the text of declarations is the same for both roles.
pub proof fn lemma_rendered_typescript(first: Role, second: Role, objects: Seq<DeclarationView>)
    ensures
        rendered(Target::TypeScript, first, objects) == rendered(
            Target::TypeScript,
            second,
            objects,
        ),
    decreases objects.len(),
{
    if objects.len() > 0 {
        lemma_rendered_typescript(first, second, objects.drop_last());
        let properties = objects.last().properties;
        assert forall|i: int| 0 <= i < properties.len() implies field(
            Target::TypeScript,
            first,
            properties[i],
        ) == field(Target::TypeScript, second, properties[i]) by {
            lemma_type_ref_typescript(
                first,
                second,
                capitalized(properties[i].key),
                properties[i].value,
            );
        }
        assert(fields(Target::TypeScript, first, properties) == fields(
            Target::TypeScript,
            second,
            properties,
        ));
    }
}

/// In TypeScript a value is written in the same way whether it comes in or
/// goes out.
pub proof fn law_typescript_ignores_role(
    first: Role,
    second: Role,
    name: Seq<char>,
    content: ContentView,
)
    ensures
        emitted(Target::TypeScript, first, name, content) == emitted(
            Target::TypeScript,
            second,
            name,
            content,
        ),
{
    lemma_type_ref_typescript(first, second, name, content);
    lemma_rendered_typescript(first, second, declarations(name, content, false));
}

/// The properties with nothing said of null, in them or below them.
pub open spec fn never_null_properties(properties: Seq<PropertyView>) -> Seq<PropertyView>
    decreases properties, 1nat,
{
    Seq::new(
        properties.len(),
        |i: int|
            if 0 <= i < properties.len() {
                PropertyView {
                    key: properties[i].key,
                    value: never_null(properties[i].value),
                    or_null: false,
                }
            } else {
                arbitrary()
            },
    )
}

/// The shape with nothing said of null.
pub open spec fn never_null(content: ContentView) -> ContentView
    decreases content, 0nat,
{
    match content {
        ContentView::Array(element) => ContentView::Array(Box::new(never_null(*element))),
        ContentView::Object(properties) => ContentView::Object(never_null_properties(properties)),
        _ => content,
    }
}

/// An object to declare, with nothing said of null.
pub open spec fn never_null_declaration(object: DeclarationView) -> DeclarationView {
    DeclarationView {
        name: object.name,
        properties: never_null_properties(object.properties),
        follows: object.follows,
    }
}

/// The objects to declare, with nothing said of null.
pub open spec fn never_null_declarations(objects: Seq<DeclarationView>) -> Seq<DeclarationView> {
    Seq::new(objects.len(), |i: int| never_null_declaration(objects[i]))
}

/// The type by which a value is referred to does not depend on what the
/// shape says of null.
pub proof fn lemma_type_ref_never_null(
    target: Target,
    role: Role,
    name: Seq<char>,
    content: ContentView,
)
    ensures
        type_ref(target, role, name, never_null(content)) == type_ref(target, role, name, content),
    decreases content,
{
    match content {
        ContentView::Array(element) => {
            lemma_type_ref_never_null(target, role, name, *element);
        },
        _ => {},
    }
}

/// The objects to declare for a shape with nothing said of null are those
/// for the shape, with nothing said of null.
pub proof fn lemma_declarations_never_null(name: Seq<char>, content: ContentView, follows: bool)
    ensures
        declarations(name, never_null(content), follows) == never_null_declarations(
            declarations(name, content, follows),
        ),
    decreases content, 0nat,
{
    match content {
        ContentView::Object(properties) => {
            lemma_owned_never_null(properties, properties.len());
            let root = DeclarationView { name, properties, follows };
            assert(never_null_declarations(seq![root] + owned(properties, properties.len()))
                == seq![never_null_declaration(root)] + never_null_declarations(
                owned(properties, properties.len()),
            ));
        },
        ContentView::Array(element) => {
            lemma_declarations_never_null(name, *element, follows);
        },
        _ => {
            assert(never_null_declarations(Seq::empty()) == Seq::<DeclarationView>::empty());
        },
    }
}

/// The objects to declare for properties with nothing said of null are
/// those for the properties, with nothing said of null.
pub proof fn lemma_owned_never_null(properties: Seq<PropertyView>, n: nat)
    ensures
        owned(never_null_properties(properties), n) == never_null_declarations(
            owned(properties, n),
        ),
    decreases properties, n,
{
    if n == 0 || n > properties.len() {
        assert(never_null_declarations(Seq::empty()) == Seq::<DeclarationView>::empty());
    } else {
        lemma_owned_never_null(properties, (n - 1) as nat);
        let before = owned(properties, (n - 1) as nat);
        let property = properties[n - 1];
        let added = declarations(capitalized(property.key), property.value, before.len() > 0);
        lemma_declarations_never_null(capitalized(property.key), property.value, before.len() > 0);
        assert(never_null_declarations(before + added) == never_null_declarations(before)
            + never_null_declarations(added));
    }
}

/// The text of declarations does not depend on what they say of null.
pub proof fn lemma_rendered_never_null(target: Target, role: Role, objects: Seq<DeclarationView>)
    ensures
        rendered(target, role, never_null_declarations(objects)) == rendered(
            target,
            role,
            objects,
        ),
    decreases objects.len(),
{
    if objects.len() > 0 {
        let stripped = never_null_declarations(objects);
        assert(stripped.drop_last() == never_null_declarations(objects.drop_last()));
        lemma_rendered_never_null(target, role, objects.drop_last());
        let properties = objects.last().properties;
        assert forall|i: int| 0 <= i < properties.len() implies field(
            target,
            role,
            never_null_properties(properties)[i],
        ) == field(target, role, properties[i]) by {
            lemma_type_ref_never_null(
                target,
                role,
                capitalized(properties[i].key),
                properties[i].value,
            );
        }
        assert(fields(target, role, never_null_properties(properties)) == fields(
            target,
            role,
            properties,
        ));
    }
}

/// What a shape says of null does not show in its text.
pub proof fn law_nullability_does_not_show(
    target: Target,
    role: Role,
    name: Seq<char>,
    content: ContentView,
)
    ensures
        emitted(target, role, name, never_null(content)) == emitted(target, role, name, content),
{
    lemma_type_ref_never_null(target, role, name, content);
    lemma_declarations_never_null(name, content, false);
    lemma_rendered_never_null(target, role, declarations(name, content, false));
}

/// The upper-case mapping of a character. This is `char::to_uppercase` of
/// the standard library, which is taken on trust: its result is a function
/// of the character alone, and `uppercase_of` is the name of that result.
#[verifier::external_body]
fn unicode_upper(c: char) -> (out: String)
    ensures
        out@ == uppercase_of(c),
{
    c.to_uppercase().collect()
}

/// The key with `head` in the place of its first character.
pub fn replace_head(head: &str, key: &str) -> (out: String)
    ensures
        out@ == head@ + tail(key@),
{
    let chars = chars_of(key);
    let mut out = head.to_owned();
    if chars.len() > 0 {
        let rest = string_of(&chars, 1, chars.len());
        assert(chars@.subrange(1, chars.len() as int) == key@.skip(1));
        out.append(rest.as_str());
    } else {
        assert(head@ + tail(key@) == head@);
    }
    out
}

/// The key with its first character in upper case.
pub fn head_uppercase(key: &str) -> (out: String)
    ensures
        out@ == capitalized(key@),
{
    let chars = chars_of(key);
    if chars.len() == 0 {
        return key.to_owned();
    }
    let first = chars[0];
    let code: u32 = first as u32;
    let head = if 97 <= code && code <= 122 {
        let mut head = String::new();
        push_char(&mut head, ((code - 32) as u8) as char);
        assert(head@ == upper(first));
        head
    } else if code < 128 {
        let mut head = String::new();
        push_char(&mut head, first);
        assert(head@ == upper(first));
        head
    } else {
        unicode_upper(first)
    };
    replace_head(head.as_str(), key)
}

/// An object to declare.
pub struct Declaration<'a> {
    pub name: String,
    pub properties: &'a Vec<Property>,
    pub follows: bool,
}

impl<'a> DeepView for Declaration<'a> {
    type V = DeclarationView;

    open spec fn deep_view(&self) -> DeclarationView {
        DeclarationView {
            name: self.name@,
            properties: self.properties.deep_view(),
            follows: self.follows,
        }
    }
}

/// Lists the objects to declare for a value that is referred to by `name`.
pub fn flatten<'a>(name: String, content: &'a Content, follows: bool) -> (out: Vec<
    Declaration<'a>,
>)
    ensures
        out.deep_view() == declarations(name@, content@, follows),
    decreases content@,
{
    match content {
        Content::Object(properties) => {
            proof {
                lemma_object_view(*properties);
            }
            let ghost views = properties.deep_view();
            let ghost root = DeclarationView { name: name@, properties: views, follows };
            let mut out: Vec<Declaration<'a>> = Vec::new();
            out.push(Declaration { name, properties, follows });
            assert(out.deep_view() == seq![root] + owned(views, 0));
            let mut i: usize = 0;
            while i < properties.len()
                invariant
                    i <= properties.len(),
                    views == properties.deep_view(),
                    content@ == ContentView::Object(views),
                    out.deep_view() == seq![root] + owned(views, i as nat),
                decreases properties.len() - i,
            {
                assert(views[i as int] == properties[i as int]@);
                let property = &properties[i];
                assert(property.value@ == content@->Object_0[i as int].value);
                let ghost before = out.deep_view();
                let mut children = flatten(
                    head_uppercase(property.key.as_str()),
                    &property.value,
                    out.len() > 1,
                );
                let ghost added = children.deep_view();
                out.append(&mut children);
                i = i + 1;
                assert(out.deep_view() == before + added);
                assert(owned(views, i as nat) == owned(views, (i - 1) as nat) + added);
            }
            out
        },
        Content::Array(element) => {
            assert(*content@->Array_0 == element@);
            flatten(name, element, follows)
        },
        _ => Vec::new(),
    }
}

/// Writes the name of a scalar type.
fn render_scalar(target: Target, role: Role, content: &Content) -> (out: String)
    ensures
        out@ == scalar_name(target, role, content@),
{
    let name = match target {
        Target::Scala => match content {
            Content::String => "String",
            Content::Integer => "Int or Long",
            Content::Number => "Float",
            Content::Boolean => "Boolean",
            Content::Date => match role {
                Role::Command => "ZonedDateTime",
                Role::ViewModel => "Instant",
            },
            _ => "",
        },
        Target::TypeScript => match content {
            Content::String => "string",
            Content::Integer => "number",
            Content::Number => "number",
            Content::Boolean => "boolean",
            Content::Date => "Date",
            _ => "",
        },
    };
    proof {
        reveal_strlit("");
    }
    assert(name@ == scalar_name(target, role, content@));
    name.to_owned()
}

/// Writes the type by which a value is referred to.
pub fn render_type(target: Target, role: Role, name: &str, content: &Content) -> (out: String)
    ensures
        out@ == type_ref(target, role, name@, content@),
    decreases content@,
{
    match content {
        Content::Object(_) => name.to_owned(),
        Content::Array(element) => {
            assert(*content@->Array_0 == element@);
            let inner = render_type(target, role, name, element);
            match target {
                Target::Scala => {
                    let mut out = "Seq[".to_owned();
                    out.append(inner.as_str());
                    out.append("]");
                    out
                },
                Target::TypeScript => {
                    let mut out = inner;
                    out.append("[]");
                    out
                },
            }
        },
        _ => render_scalar(target, role, content),
    }
}

/// Writes one field of a declaration.
fn render_field(target: Target, role: Role, property: &Property) -> (out: String)
    ensures
        out@ == field(target, role, property@),
{
    let name = head_uppercase(property.key.as_str());
    let kind = render_type(target, role, name.as_str(), &property.value);
    let mut out = property.key.clone();
    out.append(": ");
    out.append(kind.as_str());
    out
}

/// Writes the declaration of an object under `name`.
pub fn render_declaration(target: Target, role: Role, name: &str, properties: &Vec<Property>) -> (out:
    String)
    ensures
        out@ == declaration(target, role, name@, properties.deep_view()),
{
    let ghost parts = fields(target, role, properties.deep_view());
    let mut list = String::new();
    assert(parts.take(0) == Seq::<Seq<char>>::empty());
    let mut i: usize = 0;
    while i < properties.len()
        invariant
            i <= properties.len(),
            parts == fields(target, role, properties.deep_view()),
            list@ == join(parts.take(i as int), ",\n"@),
        decreases properties.len() - i,
    {
        assert(properties.deep_view()[i as int] == properties[i as int]@);
        let part = render_field(target, role, &properties[i]);
        assert(parts.take(i + 1).drop_last() == parts.take(i as int));
        if i > 0 {
            list.append(",\n");
            list.append(part.as_str());
        } else {
            list = part;
        }
        i = i + 1;
    }
    assert(parts.take(i as int) == parts);
    match target {
        Target::Scala => {
            let mut out = "case class ".to_owned();
            out.append(name);
            out.append("(");
            out.append(list.as_str());
            out.append(")");
            out
        },
        Target::TypeScript => {
            let mut out = "type ".to_owned();
            out.append(name);
            out.append("={");
            out.append(list.as_str());
            out.append("}");
            out
        },
    }
}

/// Writes the declarations, each on a line of its own.
pub fn render<'a>(target: Target, role: Role, objects: &Vec<Declaration<'a>>) -> (out: String)
    ensures
        out@ == rendered(target, role, objects.deep_view()),
{
    let ghost views = objects.deep_view();
    let mut out = String::new();
    assert(views.take(0) == Seq::<DeclarationView>::empty());
    let mut i: usize = 0;
    while i < objects.len()
        invariant
            i <= objects.len(),
            views == objects.deep_view(),
            out@ == rendered(target, role, views.take(i as int)),
        decreases objects.len() - i,
    {
        assert(views[i as int] == objects[i as int].deep_view());
        assert(views.take(i + 1).drop_last() == views.take(i as int));
        let object = &objects[i];
        if object.follows {
            out.append(",\n");
        } else {
            assert(out@ + Seq::<char>::empty() == out@);
        }
        let text = render_declaration(target, role, object.name.as_str(), object.properties);
        out.append(text.as_str());
        out.append("\n");
        i = i + 1;
    }
    assert(views.take(i as int) == views);
    out
}

/// Writes the type declarations for a value under the name `root_type_name`.
pub fn emit(root_type_name: &str, content: &Content, role: Role, target: Target) -> (out: String)
    ensures
        out@ == emitted(target, role, root_type_name@, content@),
{
    let objects = flatten(root_type_name.to_owned(), content, false);
    let floated = render(target, role, &objects);
    match content {
        Content::Object(_) => floated,
        _ => {
            let mut out = render_type(target, role, root_type_name, content);
            if objects.len() > 0 {
                out.append("\n");
                out.append(floated.as_str());
            }
            out
        },
    }
}

/// The role that a flag stands for.
pub open spec fn role_of(is_command: bool) -> Role {
    if is_command {
        Role::Command
    } else {
        Role::ViewModel
    }
}

/// Writes the Scala declarations for a value under the name `class_name`.
pub fn content_to_string_scala(class_name: String, content: Content, is_command: bool) -> (out:
    String)
    ensures
        out@ == emitted(Target::Scala, role_of(is_command), class_name@, content@),
{
    let role = if is_command {
        Role::Command
    } else {
        Role::ViewModel
    };
    emit(class_name.as_str(), &content, role, Target::Scala)
}

/// Writes the TypeScript declarations for a value under the name `name`.
pub fn content_to_string_ts(name: String, content: Content) -> (out: String)
    ensures
        out@ == emitted(Target::TypeScript, Role::Command, name@, content@),
{
    emit(name.as_str(), &content, Role::Command, Target::TypeScript)
}

/// The declarations for what the operation takes, in Scala, if it takes
/// anything.
pub fn generate_command_scala(method: Method) -> (out: Option<String>)
    ensures
        out.deep_view() == match method@.request_body_opt {
            Some(content) => Some(emitted(Target::Scala, Role::Command, "Command"@, content)),
            None => None,
        },
{
    match method.request_body_opt {
        Some(content) => Some(emit("Command", &content, Role::Command, Target::Scala)),
        None => None,
    }
}

/// The declarations for what the operation takes, in TypeScript, if it
/// takes anything.
pub fn generate_command_ts(method: Method) -> (out: Option<String>)
    ensures
        out.deep_view() == match method@.request_body_opt {
            Some(content) => Some(emitted(Target::TypeScript, Role::Command, "Command"@, content)),
            None => None,
        },
{
    match method.request_body_opt {
        Some(content) => Some(emit("Command", &content, Role::Command, Target::TypeScript)),
        None => None,
    }
}

/// The declarations for what the operation gives, in Scala, if it gives
/// anything.
pub fn generate_view_model_scala(method: Method) -> (out: Option<String>)
    ensures
        out.deep_view() == match method@.response_opt {
            Some(content) => Some(emitted(Target::Scala, Role::ViewModel, "ViewModel"@, content)),
            None => None,
        },
{
    match method.response_opt {
        Some(content) => Some(emit("ViewModel", &content, Role::ViewModel, Target::Scala)),
        None => None,
    }
}

/// The declarations for what the operation gives, in TypeScript, if it
/// gives anything.
pub fn generate_view_model_ts(method: Method) -> (out: Option<String>)
    ensures
        out.deep_view() == match method@.response_opt {
            Some(content) => Some(
                emitted(Target::TypeScript, Role::ViewModel, "ViewModel"@, content),
            ),
            None => None,
        },
{
    match method.response_opt {
        Some(content) => Some(emit("ViewModel", &content, Role::ViewModel, Target::TypeScript)),
        None => None,
    }
}

} // verus!
