use strange_sandwich::recipe::ParseError;
use strange_sandwich::service::{
    build_prompt, interpret_reply, sandwich_response, GenerateError, Ingredients,
};

#[test]
fn prompt_splices_ingredients_verbatim() {
    assert_eq!(
        build_prompt("banana,parsley"),
        "Generate a creative sandwich recipe using banana,parsley in JSON format."
    );
}

#[test]
fn empty_ingredients_are_not_rejected() {
    // The empty string is passed through verbatim, not treated as an error.
    assert_eq!(
        build_prompt(""),
        "Generate a creative sandwich recipe using  in JSON format."
    );
}

#[test]
fn ingredients_body_builds_the_same_prompt() {
    let body = Ingredients {
        ingredients: "banana,parsley".to_owned(),
    };
    assert_eq!(body.prompt(), build_prompt("banana,parsley"));
}

#[test]
fn backend_failure_is_a_transport_error() {
    let r = interpret_reply(Err("HTTP status 500".to_owned()));
    match r {
        Err(GenerateError::Transport(m)) => assert_eq!(m, "HTTP status 500"),
        other => panic!("expected a transport error, got {:?}", other),
    }
}

#[test]
fn non_json_reply_is_a_parse_error_distinct_from_transport() {
    let r = interpret_reply(Ok("not json".to_owned()));
    match r {
        Err(GenerateError::Parse(ParseError::InvalidJson)) => {},
        other => panic!("expected a parse error, got {:?}", other),
    }
}

#[test]
fn wrong_shape_reply_is_a_distinct_parse_error() {
    let r = interpret_reply(Ok("{\"not\":\"a recipe\"}".to_owned()));
    match r {
        Err(GenerateError::Parse(ParseError::InvalidShape)) => {},
        other => panic!("expected a shape error, got {:?}", other),
    }
}

#[test]
fn valid_reply_is_a_recipe() {
    let reply = "{\"title\":\"Banana Parsley Surprise\",\"ingredients\":[\"banana\",\"parsley\"],\"steps\":[]}";
    let r = interpret_reply(Ok(reply.to_owned())).expect("should succeed");
    assert_eq!(r.title, "Banana Parsley Surprise");
    assert_eq!(r.ingredients.len(), 2);
}

#[test]
fn error_messages_name_their_cause() {
    assert_eq!(
        GenerateError::Transport("connection refused".to_owned()).message(),
        "Chat error: connection refused"
    );
    assert_eq!(
        GenerateError::Parse(ParseError::InvalidJson).message(),
        "Failed to parse JSON: not valid JSON text"
    );
    assert_eq!(
        GenerateError::Parse(ParseError::InvalidShape).message(),
        "Failed to parse JSON: value does not match the recipe shape"
    );
}

#[test]
fn success_response_wraps_reply_with_status_200() {
    let (body, status) = sandwich_response(Ok("hello".to_owned()));
    assert_eq!(status, 200);
    assert_eq!(body, "{\"result\":\"hello\"}");
}

#[test]
fn success_response_escapes_the_reply() {
    let (body, status) = sandwich_response(Ok("a\"b".to_owned()));
    assert_eq!(status, 200);
    assert_eq!(body, "{\"result\":\"a\\\"b\"}");
    let v: serde_json::Value = serde_json::from_str(&body).unwrap();
    assert_eq!(v["result"], serde_json::Value::String("a\"b".to_owned()));
}

#[test]
fn any_failure_collapses_to_status_500() {
    let (body, status) = sandwich_response(Err("connection refused".to_owned()));
    assert_eq!(status, 500);
    assert_eq!(body, "{\"error\":\"API request failed\"}");
}
