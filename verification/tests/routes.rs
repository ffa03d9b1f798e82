use draco_open_api::{
    generate_command_scala, generate_command_ts, generate_view_model_scala,
    generate_view_model_ts, load_apis, to_play_routings, Api, Method, ParamType, RouteError,
};

fn operation() -> Method {
    Method {
        operation_id: "op".to_string(),
        summary: "summary".to_string(),
        response_opt: None,
        request_body_opt: None,
    }
}

fn api(path: &str, params: Vec<(&str, ParamType)>, tokens: Vec<&str>) -> Api {
    Api {
        path: path.to_string(),
        param_map: params
            .into_iter()
            .map(|(name, kind)| (name.to_string(), kind))
            .collect(),
        method_map: tokens
            .into_iter()
            .map(|token| (token.to_string(), operation()))
            .collect(),
    }
}

#[test]
fn one_line_for_each_method_in_order() {
    assert_eq!(
        Ok(vec![
            "PUT /a Handler()".to_string(),
            "GET /a Handler()".to_string(),
            "DELETE /a Handler()".to_string(),
            "POST /a Handler()".to_string(),
        ]),
        to_play_routings(api("/a", vec![], vec!["put", "get", "delete", "post"]))
    );
}

#[test]
fn no_methods_no_lines() {
    assert_eq!(
        Ok(vec![]),
        to_play_routings(api("/a/{b}", vec![("b", ParamType::Integer)], vec![]))
    );
}

#[test]
fn parameters_with_their_types() {
    assert_eq!(
        Ok(vec![
            "GET /s/:shop/items/:item Handler(shop: String, item: Long)".to_string()
        ]),
        to_play_routings(api(
            "/s/{shop}/items/{item}",
            vec![("shop", ParamType::String), ("item", ParamType::Integer)],
            vec!["get"]
        ))
    );
}

#[test]
fn unsupported_method_token_is_refused() {
    assert_eq!(
        Err(RouteError::UnsupportedMethod {
            method: "patch".to_string()
        }),
        to_play_routings(api("/a", vec![], vec!["get", "patch", "head"]))
    );
    assert_eq!(
        Err(RouteError::UnsupportedMethod {
            method: "GET".to_string()
        }),
        to_play_routings(api("/a", vec![], vec!["GET"]))
    );
    assert_eq!(
        Err(RouteError::UnsupportedMethod {
            method: "".to_string()
        }),
        to_play_routings(api("/a", vec![], vec![""]))
    );
}

#[test]
fn method_token_is_checked_for_routes_only() {
    let source = "paths:\n  /a:\n    patch:\n      operationId: a\n      summary: b\n";
    let mut apis = load_apis(source).unwrap();
    assert_eq!(
        Err(RouteError::UnsupportedMethod {
            method: "patch".to_string()
        }),
        to_play_routings(apis.remove(0))
    );
}

const USERS: &str = "
paths:
  '/users/{userId}':
    parameters:
      - schema:
          type: string
        name: userId
        in: path
    get:
      summary: one user
      operationId: get-users-userId
      responses:
        '200':
          content:
            application/json:
              schema:
                type: object
                properties:
                  hogeId:
                    type: boolean
                  foo:
                    type:
                      - integer
                      - 'null'
                  bar_at:
                    type: string
                    format: date
    put:
      summary: change a user
      operationId: put-users-userId
      requestBody:
        content:
          application/json:
            schema:
              type: object
              properties:
                hasDateAndPlace:
                  type: string
                location:
                  type: string
";

#[test]
fn from_text_to_routes_and_declarations() {
    let mut apis = load_apis(USERS).unwrap();
    assert_eq!(1, apis.len());
    let api = apis.remove(0);
    assert_eq!("/users/{userId}", api.path);

    let mut get = None;
    let mut put = None;
    let mut tokens = Vec::new();
    let mut table = Api {
        path: api.path,
        param_map: api.param_map,
        method_map: Vec::new(),
    };
    for (token, method) in api.method_map {
        tokens.push(token.clone());
        table.method_map.push((
            token.clone(),
            Method {
                operation_id: method.operation_id.clone(),
                summary: method.summary.clone(),
                response_opt: None,
                request_body_opt: None,
            },
        ));
        if token == "get" {
            get = Some(method);
        } else {
            put = Some(method);
        }
    }
    assert_eq!(vec!["get", "put"], tokens);

    let mut routes = to_play_routings(table).unwrap();
    routes.sort();
    assert_eq!(
        vec![
            "GET /users/:userId Handler(userId: String)",
            "PUT /users/:userId Handler(userId: String)",
        ],
        routes
    );

    let get = get.unwrap();
    assert_eq!(None, get.request_body_opt);
    let view_model = get.response_opt.unwrap();
    let again = |response_opt| Method {
        operation_id: "get-users-userId".to_string(),
        summary: "one user".to_string(),
        response_opt,
        request_body_opt: None,
    };
    assert_eq!(None, generate_command_scala(again(None)));
    assert_eq!(
        Some(
            "case class ViewModel(hogeId: Boolean,\nfoo: Int or Long,\nbar_at: Instant)\n"
                .to_string()
        ),
        generate_view_model_scala(again(Some(view_model)))
    );

    let put = put.unwrap();
    assert_eq!(None, put.response_opt);
    let command = put.request_body_opt.unwrap();
    let body = |request_body_opt| Method {
        operation_id: "put-users-userId".to_string(),
        summary: "change a user".to_string(),
        response_opt: None,
        request_body_opt,
    };
    assert_eq!(None, generate_view_model_ts(body(None)));
    assert_eq!(
        Some("type Command={hasDateAndPlace: string,\nlocation: string}\n".to_string()),
        generate_command_ts(body(Some(command)))
    );
}

#[test]
fn copy_of_a_description_gives_the_same_routes() {
    let described = api(
        "/a/{b}",
        vec![("b", ParamType::Integer), ("c", ParamType::String)],
        vec!["get", "post"],
    );
    assert_eq!(described, described.clone());
    assert_eq!(
        to_play_routings(described.clone()),
        to_play_routings(described)
    );
}
