use draco_open_api::{
    generate_command_scala, generate_command_ts, to_play_routings, Api, Content, Method, ParamType,
    Property,
};

#[test]
fn it_to_play_routings() {
    let api = Api {
        path: "/users/{userId}".to_string(),
        param_map: vec![("userId".to_string(), ParamType::String)],
        method_map: vec![
            (
                "get".to_string(),
                Method {
                    operation_id: "get-users-userId".to_string(),
                    summary: "候補者詳細GET".to_string(),
                    response_opt: None,
                    request_body_opt: None,
                },
            ),
            (
                "put".to_string(),
                Method {
                    operation_id: "put-users-userId".to_string(),
                    summary: "候補者詳細PUT".to_string(),
                    response_opt: None,
                    request_body_opt: None,
                },
            ),
        ],
    };

    let mut expected = vec![
        "GET /users/:userId Handler(userId: String)",
        "PUT /users/:userId Handler(userId: String)",
    ];

    let mut actual = to_play_routings(api).unwrap();

    expected.sort();
    actual.sort();

    assert_eq!(expected, actual);
}

fn command_method() -> Method {
    Method {
        operation_id: "put-users-userId".to_string(),
        summary: "候補者詳細PUT".to_string(),
        response_opt: None,
        request_body_opt: Some(Content::Object(vec![
            Property {
                key: "hasDateAndPlace".to_string(),
                value: Content::String,
                or_null: false,
            },
            Property {
                key: "location".to_string(),
                value: Content::String,
                or_null: false,
            },
            Property {
                key: "idList".to_string(),
                value: Content::Array(Box::new(Content::String)),
                or_null: false,
            },
            Property {
                key: "familyCommand".to_string(),
                value: Content::Object(vec![
                    Property {
                        key: "name".to_string(),
                        value: Content::String,
                        or_null: false,
                    },
                    Property {
                        key: "age".to_string(),
                        value: Content::Integer,
                        or_null: false,
                    },
                ]),
                or_null: false,
            },
        ])),
    }
}

#[test]
fn it_generate_command_scala() {
    let method = command_method();
    assert_eq!(
      Some(
        "case class Command(hasDateAndPlace: String,\nlocation: String,\nidList: Seq[String],\nfamilyCommand: FamilyCommand)"
          .to_string()
          + "\ncase class FamilyCommand(name: String,\nage: Int or Long)\n"
      ),
      generate_command_scala(method)
    )
}

#[test]
fn it_generate_command_ts() {
    let method = command_method();
    assert_eq!(
      Some(
        "type Command={hasDateAndPlace: string,\nlocation: string,\nidList: string[],\nfamilyCommand: FamilyCommand}".to_string()
        .to_string()
          + "\ntype FamilyCommand={name: string,\nage: number}\n"
      ),
      generate_command_ts(method)
    )
}
