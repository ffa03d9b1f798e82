//! The routing table: one line for each operation of a path.

use vstd::prelude::*;
use vstd::string::StringExecFns;
use crate::error::{result_view, RouteError, RouteErrorView};
use crate::path::{nomalize_play_variable_path, normalized_path};
use crate::schema::{Api, ApiView, ParamType};
use crate::sequence::{
    collect, distinct_keys, lemma_collect_error, lemma_collect_ok, lemma_collect_step,
};
use crate::text::{join, join_strings, same_text};

verus! {

/// The verb that a method token stands for. Only `get`, `post`, `put` and
/// `delete` stand for one.
pub open spec fn verb_of(token: Seq<char>) -> Option<Seq<char>> {
    if token == "get"@ {
        Some("GET"@)
    } else if token == "post"@ {
        Some("POST"@)
    } else if token == "put"@ {
        Some("PUT"@)
    } else if token == "delete"@ {
        Some("DELETE"@)
    } else {
        None
    }
}

/// The type of a path parameter as a route names it.
pub open spec fn param_type_name(kind: ParamType) -> Seq<char> {
    match kind {
        ParamType::String => "String"@,
        ParamType::Integer => "Long"@,
    }
}

/// One parameter as a route lists it.
pub open spec fn param_text(param: (Seq<char>, ParamType)) -> Seq<char> {
    param.0 + ": "@ + param_type_name(param.1)
}

/// The parameters as a route lists them, in the order of the map.
pub open spec fn param_texts(params: Seq<(Seq<char>, ParamType)>) -> Seq<Seq<char>> {
    Seq::new(params.len(), |i: int| param_text(params[i]))
}

/// What follows the verb in every line of a path: the normalized path and
/// the handler with every parameter of the path.
pub open spec fn route_tail(path: Seq<char>, params: Seq<(Seq<char>, ParamType)>) -> Seq<char> {
    " "@ + normalized_path(path) + " Handler("@ + join(param_texts(params), ", "@) + ")"@
}

/// The line for the operation under the method `token`: the verb, and
/// behind it what all lines of the path share.
pub open spec fn route_of(path: Seq<char>, params: Seq<(Seq<char>, ParamType)>, token: Seq<char>)
    -> Result<Seq<char>, RouteErrorView> {
    match verb_of(token) {
        Some(verb) => Ok(verb + route_tail(path, params)),
        None => Err(RouteErrorView::UnsupportedMethod { method: token }),
    }
}

/// What each of the operations of a path gives.
pub open spec fn route_results(api: ApiView) -> Seq<Result<Seq<char>, RouteErrorView>> {
    Seq::new(
        api.method_map.len(),
        |i: int| route_of(api.path, api.param_map, api.method_map[i].0),
    )
}

/// The lines for all operations of a path, in the order of its methods, or
/// the first method token that stands for no verb.
pub open spec fn routes_of(api: ApiView) -> Result<Seq<Seq<char>>, RouteErrorView> {
    collect(route_results(api))
}

/// Two method tokens that stand for verbs stand for different verbs, unless
/// they are the same token; and the verbs differ within their first two
/// characters.
pub proof fn lemma_verbs_differ(first: Seq<char>, second: Seq<char>)
    requires
        first != second,
        verb_of(first) is Some,
        verb_of(second) is Some,
    ensures
        verb_of(first) != verb_of(second),
        verb_of(first)->Some_0.len() >= 3,
        verb_of(second)->Some_0.len() >= 3,
        verb_of(first)->Some_0[0] != verb_of(second)->Some_0[0] || verb_of(first)->Some_0[1]
            != verb_of(second)->Some_0[1],
{
    reveal_strlit("GET");
    reveal_strlit("POST");
    reveal_strlit("PUT");
    reveal_strlit("DELETE");
    assert("GET"@.len() == 3 && "GET"@[0] == 'G' && "GET"@[1] == 'E');
    assert("POST"@.len() == 4 && "POST"@[0] == 'P' && "POST"@[1] == 'O');
    assert("PUT"@.len() == 3 && "PUT"@[0] == 'P' && "PUT"@[1] == 'U');
    assert("DELETE"@.len() == 6 && "DELETE"@[0] == 'D' && "DELETE"@[1] == 'E');
}

/// A path whose operations have method tokens of their own gets one line
/// for each of them: as many lines as tokens, the line in the place of a
/// token being the verb of that token with the tail that all lines of the
/// path share, and no two lines alike, since no two of them begin with the
/// same verb.
pub proof fn law_one_line_per_key(api: ApiView)
    requires
        distinct_keys(api.method_map),
        routes_of(api) is Ok,
    ensures
        routes_of(api)->Ok_0.len() == api.method_map.len(),
        forall|i: int|
            0 <= i < api.method_map.len() ==> route_of(
                api.path,
                api.param_map,
                (#[trigger] api.method_map[i]).0,
            ) == Ok::<Seq<char>, RouteErrorView>(routes_of(api)->Ok_0[i]),
        forall|i: int|
            0 <= i < api.method_map.len() ==> verb_of((#[trigger] api.method_map[i]).0) is Some
                && routes_of(api)->Ok_0[i] == verb_of(api.method_map[i].0)->Some_0 + route_tail(
                api.path,
                api.param_map,
            ),
        forall|i: int, j: int|
            0 <= i < j < api.method_map.len() ==> verb_of((#[trigger] api.method_map[i]).0)
                != verb_of((#[trigger] api.method_map[j]).0),
        forall|i: int, j: int|
            0 <= i < j < api.method_map.len() ==> (#[trigger] routes_of(api)->Ok_0[i]) != (
            #[trigger] routes_of(api)->Ok_0[j]),
{
    let results = route_results(api);
    let lines = routes_of(api)->Ok_0;
    lemma_collect_ok(results);
    assert forall|i: int| 0 <= i < api.method_map.len() implies route_of(
        api.path,
        api.param_map,
        (#[trigger] api.method_map[i]).0,
    ) == Ok::<Seq<char>, RouteErrorView>(lines[i]) by {
        assert(results[i] == Ok::<Seq<char>, RouteErrorView>(lines[i]));
    }
    assert forall|i: int| 0 <= i < api.method_map.len() implies verb_of(
        (#[trigger] api.method_map[i]).0,
    ) is Some && lines[i] == verb_of(api.method_map[i].0)->Some_0 + route_tail(
        api.path,
        api.param_map,
    ) by {
        assert(results[i] == Ok::<Seq<char>, RouteErrorView>(lines[i]));
    }
    assert forall|i: int, j: int| 0 <= i < j < api.method_map.len() implies verb_of(
        (#[trigger] api.method_map[i]).0,
    ) != verb_of((#[trigger] api.method_map[j]).0) by {
        assert(results[i] == Ok::<Seq<char>, RouteErrorView>(lines[i]));
        assert(results[j] == Ok::<Seq<char>, RouteErrorView>(lines[j]));
        lemma_verbs_differ(api.method_map[i].0, api.method_map[j].0);
    }
    assert forall|i: int, j: int| 0 <= i < j < api.method_map.len() implies (#[trigger] lines[i])
        != (#[trigger] lines[j]) by {
        let first = api.method_map[i].0;
        let second = api.method_map[j].0;
        assert(results[i] == Ok::<Seq<char>, RouteErrorView>(lines[i]));
        assert(results[j] == Ok::<Seq<char>, RouteErrorView>(lines[j]));
        lemma_verbs_differ(first, second);
        let a = verb_of(first)->Some_0;
        let b = verb_of(second)->Some_0;
        assert(lines[i][0] == a[0] && lines[i][1] == a[1]);
        assert(lines[j][0] == b[0] && lines[j][1] == b[1]);
    }
}

/// The verb that a method token stands for.
fn verb(token: &str) -> (out: Option<&'static str>)
    ensures
        out.deep_view() == verb_of(token@),
{
    if same_text(token, "get") {
        Some("GET")
    } else if same_text(token, "post") {
        Some("POST")
    } else if same_text(token, "put") {
        Some("PUT")
    } else if same_text(token, "delete") {
        Some("DELETE")
    } else {
        None
    }
}

/// Writes the parameters as a route lists them.
fn render_params(params: &Vec<(String, ParamType)>) -> (out: String)
    ensures
        out@ == join(param_texts(params.deep_view()), ", "@),
{
    let ghost views = params.deep_view();
    let mut texts: Vec<String> = Vec::new();
    assert(texts.deep_view() == param_texts(views.take(0)));
    let mut i: usize = 0;
    while i < params.len()
        invariant
            i <= params.len(),
            views == params.deep_view(),
            texts.deep_view() == param_texts(views.take(i as int)),
        decreases params.len() - i,
    {
        assert(views[i as int] == params[i as int].deep_view());
        let ghost before = texts.deep_view();
        let mut text = params[i].0.clone();
        text.append(": ");
        match params[i].1 {
            ParamType::String => text.append("String"),
            ParamType::Integer => text.append("Long"),
        }
        let ghost added = text@;
        texts.push(text);
        assert(texts.deep_view() == before.push(added));
        i = i + 1;
        assert(param_texts(views.take(i as int)) == param_texts(views.take(i - 1)).push(added));
    }
    assert(views.take(i as int) == views);
    join_strings(&texts, ", ")
}

/// Writes the routing table of a path: one line for each of its
/// operations, in the order of its methods. A method token other than
/// `get`, `post`, `put` and `delete` is refused.
pub fn to_play_routings(api: Api) -> (out: Result<Vec<String>, RouteError>)
    ensures
        result_view(out) == routes_of(api@),
{
    let path = nomalize_play_variable_path(api.path.clone());
    let params = render_params(&api.param_map);
    let mut tail = " ".to_owned();
    tail.append(path.as_str());
    tail.append(" Handler(");
    tail.append(params.as_str());
    tail.append(")");
    let ghost results = route_results(api@);
    let mut lines: Vec<String> = Vec::new();
    assert(lines.deep_view() == Seq::<Seq<char>>::empty());
    assert(results.take(0) == Seq::<Result<Seq<char>, RouteErrorView>>::empty());
    let mut i: usize = 0;
    while i < api.method_map.len()
        invariant
            i <= api.method_map.len(),
            results == route_results(api@),
            tail@ == route_tail(api@.path, api@.param_map),
            collect(results.take(i as int)) == Ok::<_, RouteErrorView>(lines.deep_view()),
        decreases api.method_map.len() - i,
    {
        assert(api@.method_map[i as int] == api.method_map[i as int].deep_view());
        proof {
            lemma_collect_step(results, i as int);
        }
        let token = api.method_map[i].0.as_str();
        match verb(token) {
            Some(verb) => {
                let mut line = verb.to_owned();
                line.append(tail.as_str());
                let ghost before = lines.deep_view();
                let ghost added = line@;
                lines.push(line);
                assert(lines.deep_view() == before.push(added));
            },
            None => {
                proof {
                    lemma_collect_error(results, i + 1);
                }
                return Err(RouteError::UnsupportedMethod { method: token.to_owned() });
            },
        }
        i = i + 1;
    }
    assert(results.take(i as int) == results);
    Ok(lines)
}

} // verus!
