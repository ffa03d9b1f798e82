use draco_open_api::{
    content_to_string_scala, content_to_string_ts, emit, generate_command_scala,
    generate_command_ts, generate_view_model_scala, generate_view_model_ts, head_uppercase,
    Content, Method, Property, Role, Target,
};

fn property(key: &str, value: Content) -> Property {
    Property {
        key: key.to_string(),
        value,
        or_null: false,
    }
}

fn object(properties: Vec<Property>) -> Content {
    Content::Object(properties)
}

fn array(element: Content) -> Content {
    Content::Array(Box::new(element))
}

fn method(response_opt: Option<Content>, request_body_opt: Option<Content>) -> Method {
    Method {
        operation_id: "op".to_string(),
        summary: "summary".to_string(),
        response_opt,
        request_body_opt,
    }
}

fn all_scalars() -> Content {
    object(vec![
        property("s", Content::String),
        property("i", Content::Integer),
        property("n", Content::Number),
        property("b", Content::Boolean),
        property("d", Content::Date),
    ])
}

#[test]
fn head_uppercase_of_ascii() {
    assert_eq!("FamilyCommand", head_uppercase("familyCommand"));
    assert_eq!("A", head_uppercase("a"));
    assert_eq!("Z", head_uppercase("z"));
    assert_eq!("Already", head_uppercase("Already"));
    assert_eq!("_x", head_uppercase("_x"));
    assert_eq!("9lives", head_uppercase("9lives"));
    assert_eq!("{a", head_uppercase("{a"));
    assert_eq!("`a", head_uppercase("`a"));
}

#[test]
fn head_uppercase_of_nothing() {
    assert_eq!("", head_uppercase(""));
}

#[test]
fn head_uppercase_outside_ascii() {
    assert_eq!("Été", head_uppercase("été"));
    assert_eq!("SSa", head_uppercase("ßa"));
    assert_eq!("候補", head_uppercase("候補"));
}

#[test]
fn scalars_in_scala() {
    assert_eq!(
        "case class Command(s: String,\ni: Int or Long,\nn: Float,\nb: Boolean,\nd: ZonedDateTime)\n",
        emit("Command", &all_scalars(), Role::Command, Target::Scala)
    );
    assert_eq!(
        "case class ViewModel(s: String,\ni: Int or Long,\nn: Float,\nb: Boolean,\nd: Instant)\n",
        emit("ViewModel", &all_scalars(), Role::ViewModel, Target::Scala)
    );
}

#[test]
fn scalars_in_typescript() {
    assert_eq!(
        "type T={s: string,\ni: number,\nn: number,\nb: boolean,\nd: Date}\n",
        emit("T", &all_scalars(), Role::Command, Target::TypeScript)
    );
    assert_eq!(
        emit("T", &all_scalars(), Role::Command, Target::TypeScript),
        emit("T", &all_scalars(), Role::ViewModel, Target::TypeScript)
    );
}

#[test]
fn object_without_properties() {
    assert_eq!("case class E()\n", emit("E", &object(vec![]), Role::Command, Target::Scala));
    assert_eq!("type E={}\n", emit("E", &object(vec![]), Role::Command, Target::TypeScript));
}

#[test]
fn root_that_is_no_object() {
    assert_eq!("String", emit("R", &Content::String, Role::Command, Target::Scala));
    assert_eq!("string[]", emit("R", &array(Content::String), Role::Command, Target::TypeScript));
    assert_eq!(
        "Seq[Seq[Instant]]",
        emit("R", &array(array(Content::Date)), Role::ViewModel, Target::Scala)
    );
}

#[test]
fn nullability_does_not_show() {
    let plain = object(vec![property("a", Content::Integer)]);
    let nullable = object(vec![Property {
        key: "a".to_string(),
        value: Content::Integer,
        or_null: true,
    }]);
    for target in [Target::Scala, Target::TypeScript] {
        assert_eq!(
            emit("T", &plain, Role::Command, target),
            emit("T", &nullable, Role::Command, target)
        );
    }
}

fn nested() -> Content {
    object(vec![
        property(
            "first",
            object(vec![
                property("x", Content::String),
                property("inner", object(vec![property("y", Content::Boolean)])),
            ]),
        ),
        property("n", Content::Number),
        property("second", object(vec![property("z", Content::Integer)])),
        property("third", object(vec![])),
    ])
}

#[test]
fn declarations_stand_in_the_order_of_their_owners() {
    assert_eq!(
        "case class Root(first: First,\nn: Float,\nsecond: Second,\nthird: Third)\n\
         case class First(x: String,\ninner: Inner)\n\
         case class Inner(y: Boolean)\n\
         ,\ncase class Second(z: Int or Long)\n\
         ,\ncase class Third()\n",
        emit("Root", &nested(), Role::Command, Target::Scala)
    );
    assert_eq!(
        "type Root={first: First,\nn: number,\nsecond: Second,\nthird: Third}\n\
         type First={x: string,\ninner: Inner}\n\
         type Inner={y: boolean}\n\
         ,\ntype Second={z: number}\n\
         ,\ntype Third={}\n",
        emit("Root", &nested(), Role::ViewModel, Target::TypeScript)
    );
}

#[test]
fn emitting_twice_gives_the_same_text() {
    for target in [Target::Scala, Target::TypeScript] {
        for role in [Role::Command, Role::ViewModel] {
            assert_eq!(
                emit("Root", &nested(), role, target),
                emit("Root", &nested(), role, target)
            );
        }
    }
}

#[test]
fn array_of_objects_in_a_property_is_floated() {
    let content = object(vec![
        property("items", array(object(vec![property("a", Content::String)]))),
        property("grid", array(array(object(vec![property("b", Content::Date)])))),
    ]);
    assert_eq!(
        "case class V(items: Seq[Items],\ngrid: Seq[Seq[Grid]])\n\
         case class Items(a: String)\n\
         ,\ncase class Grid(b: Instant)\n",
        emit("V", &content, Role::ViewModel, Target::Scala)
    );
    assert_eq!(
        "type V={items: Items[],\ngrid: Grid[][]}\n\
         type Items={a: string}\n\
         ,\ntype Grid={b: Date}\n",
        emit("V", &content, Role::ViewModel, Target::TypeScript)
    );
}

#[test]
fn array_of_objects_at_the_root_is_floated() {
    let response = array(object(vec![property("a", Content::String)]));
    assert_eq!(
        Some("ViewModel[]\ntype ViewModel={a: string}\n".to_string()),
        generate_view_model_ts(method(Some(response), None))
    );
    let response = array(object(vec![property("a", Content::String)]));
    assert_eq!(
        Some("Seq[ViewModel]\ncase class ViewModel(a: String)\n".to_string()),
        generate_view_model_scala(method(Some(response), None))
    );
}

#[test]
fn array_of_objects_with_objects_inside() {
    let response = array(object(vec![
        property("userId", Content::String),
        property("age", Content::Integer),
        property(
            "family",
            object(vec![
                property("name", Content::String),
                property("age", Content::Integer),
            ]),
        ),
    ]));
    assert_eq!(
        Some(
            "Seq[ViewModel]\n\
             case class ViewModel(userId: String,\nage: Int or Long,\nfamily: Family)\n\
             case class Family(name: String,\nage: Int or Long)\n"
                .to_string()
        ),
        generate_view_model_scala(method(Some(response), None))
    );
}

#[test]
fn nothing_to_generate_without_content() {
    assert_eq!(None, generate_command_scala(method(Some(Content::String), None)));
    assert_eq!(None, generate_command_ts(method(Some(Content::String), None)));
    assert_eq!(None, generate_view_model_scala(method(None, Some(Content::String))));
    assert_eq!(None, generate_view_model_ts(method(None, Some(Content::String))));
}

#[test]
fn generators_pick_name_role_and_side() {
    let date = || object(vec![property("at", Content::Date)]);
    assert_eq!(
        Some("case class Command(at: ZonedDateTime)\n".to_string()),
        generate_command_scala(method(None, Some(date())))
    );
    assert_eq!(
        Some("case class ViewModel(at: Instant)\n".to_string()),
        generate_view_model_scala(method(Some(date()), None))
    );
    assert_eq!(
        Some("type Command={at: Date}\n".to_string()),
        generate_command_ts(method(None, Some(date())))
    );
    assert_eq!(
        Some("type ViewModel={at: Date}\n".to_string()),
        generate_view_model_ts(method(Some(date()), None))
    );
}

#[test]
fn content_to_string_by_flag() {
    let date = || object(vec![property("at", Content::Date)]);
    assert_eq!(
        "case class C(at: ZonedDateTime)\n",
        content_to_string_scala("C".to_string(), date(), true)
    );
    assert_eq!(
        "case class C(at: Instant)\n",
        content_to_string_scala("C".to_string(), date(), false)
    );
    assert_eq!("type C={at: Date}\n", content_to_string_ts("C".to_string(), date()));
}

#[test]
fn object_key_outside_ascii_names_its_declaration() {
    let content = object(vec![property("élan", object(vec![]))]);
    assert_eq!(
        "type T={élan: Élan}\ntype Élan={}\n",
        emit("T", &content, Role::Command, Target::TypeScript)
    );
}

#[test]
fn copies_are_equal() {
    let content = nested();
    assert_eq!(content, content.clone());
    let operation = method(Some(nested()), Some(all_scalars()));
    assert_eq!(operation, operation.clone());
    assert_eq!(
        emit("Root", &content, Role::Command, Target::Scala),
        emit("Root", &content.clone(), Role::Command, Target::Scala)
    );
}

#[test]
fn head_uppercase_agrees_with_the_standard_library() {
    let mut code: u32 = 0;
    while code <= 0x10FFFF {
        if let Some(c) = char::from_u32(code) {
            let key = format!("{}key", c);
            let expected = format!("{}key", c.to_uppercase());
            assert_eq!(expected, head_uppercase(&key), "U+{:04X}", code);
        }
        code += 1;
    }
}
