use mesh_ai_node::backend::endpoint;
use mesh_ai_node::backend::interpret_reply;
use mesh_ai_node::backend::model;
use mesh_ai_node::backend::outcome_of;
use mesh_ai_node::backend::request_body;
use mesh_ai_node::backend::response_for;
use mesh_ai_node::backend::response_with_line;
use mesh_ai_node::backend::BackendError;

#[test]
fn request_body_is_the_generate_request() {
    assert_eq!(endpoint(), "http://localhost:11434/api/generate");
    assert_eq!(model(), "deepseek-coder:1.3b");
    assert_eq!(
        request_body(model(), "whats 1 + 1"),
        "{\"model\":\"deepseek-coder:1.3b\",\"prompt\":\"whats 1 + 1\",\"stream\":false}"
    );
}

#[test]
fn request_body_escapes_the_prompt() {
    let prompt = "say \"hi\"\nthen \\ stop";
    let body = request_body("m", prompt);
    assert_eq!(
        body,
        "{\"model\":\"m\",\"prompt\":\"say \\\"hi\\\"\\nthen \\\\ stop\",\"stream\":false}"
    );
    let read: serde_json::Value = serde_json::from_str(&body).expect("a JSON document");
    assert_eq!(read["model"].as_str(), Some("m"));
    assert_eq!(read["prompt"].as_str(), Some(prompt));
    assert_eq!(read["stream"].as_bool(), Some(false));
    assert_eq!(read.as_object().map(|fields| fields.len()), Some(3));
}

#[test]
fn reply_with_response_text_is_taken() {
    let body = b"{\"model\":\"deepseek-coder:1.3b\",\"response\":\"2\",\"done\":true}";
    assert_eq!(interpret_reply(200, body), Ok("2".to_string()));
    assert_eq!(interpret_reply(299, body), Ok("2".to_string()));
}

#[test]
fn reply_without_response_text_stands_for_no_response() {
    assert_eq!(interpret_reply(200, b"{}"), Ok("No response".to_string()));
    assert_eq!(interpret_reply(200, b"{\"response\":5}"), Ok("No response".to_string()));
    assert_eq!(interpret_reply(200, b"{\"response\":null}"), Ok("No response".to_string()));
    assert_eq!(interpret_reply(200, b"[1,2]"), Ok("No response".to_string()));
    assert_eq!(interpret_reply(200, b"\"response\""), Ok("No response".to_string()));
}

#[test]
fn reply_that_is_no_document_is_malformed() {
    assert_eq!(interpret_reply(200, b"not json"), Err(BackendError::MalformedBody));
    assert_eq!(interpret_reply(200, b""), Err(BackendError::MalformedBody));
    assert_eq!(interpret_reply(200, b"{\"response\":\"2\""), Err(BackendError::MalformedBody));
    assert_eq!(interpret_reply(200, &[0xff, 0xfe]), Err(BackendError::MalformedBody));
}

#[test]
fn status_outside_success_is_an_error_whatever_the_body() {
    let body = b"{\"response\":\"2\"}";
    assert_eq!(interpret_reply(500, body), Err(BackendError::Status(500)));
    assert_eq!(interpret_reply(404, b"not json"), Err(BackendError::Status(404)));
    assert_eq!(interpret_reply(199, body), Err(BackendError::Status(199)));
    assert_eq!(interpret_reply(300, body), Err(BackendError::Status(300)));
    assert_eq!(interpret_reply(0, body), Err(BackendError::Status(0)));
}

#[test]
fn outcome_of_follows_status_then_field() {
    assert_eq!(outcome_of(200, Some(Some("hi".to_string()))), Ok("hi".to_string()));
    assert_eq!(outcome_of(200, Some(None)), Ok("No response".to_string()));
    assert_eq!(outcome_of(200, None), Err(BackendError::MalformedBody));
    assert_eq!(outcome_of(503, Some(Some("hi".to_string()))), Err(BackendError::Status(503)));
}

#[test]
fn generated_text_becomes_the_response() {
    assert_eq!(response_for(Ok("2".to_string())).response, "2");
    assert_eq!(response_for(Ok(String::new())).response, "");
}

#[test]
fn backend_error_becomes_a_response_with_a_message() {
    assert_eq!(
        response_for(Err(BackendError::Status(500))).response,
        "Error calling Ollama: 500 Internal Server Error"
    );
    assert_eq!(
        response_for(Err(BackendError::Status(404))).response,
        "Error calling Ollama: 404 Not Found"
    );
    assert_eq!(
        response_for(Err(BackendError::Status(599))).response,
        "Error calling Ollama: 599 <unknown status code>"
    );
    assert_eq!(
        response_for(Err(BackendError::Status(42))).response,
        "Error calling Ollama: unknown status"
    );
    assert_eq!(
        response_for(Err(BackendError::MalformedBody)).response,
        "Error calling Ollama: malformed response body"
    );
    assert_eq!(
        response_for(Err(BackendError::Unreachable)).response,
        "Error calling Ollama: backend unreachable"
    );
}

#[test]
fn response_with_line_uses_the_line_it_is_given() {
    assert_eq!(
        response_with_line(Err(BackendError::Status(500)), Some("500 Oops".to_string())).response,
        "Error calling Ollama: 500 Oops"
    );
    assert_eq!(
        response_with_line(Ok("fine".to_string()), Some("200 OK".to_string())).response,
        "fine"
    );
    assert_eq!(
        response_with_line(Err(BackendError::Unreachable), Some("200 OK".to_string())).response,
        "Error calling Ollama: backend unreachable"
    );
}

#[test]
fn backend_failure_still_yields_a_response() {
    let outcome = interpret_reply(500, b"internal error");
    let response = response_for(outcome);
    assert_eq!(response.response, "Error calling Ollama: 500 Internal Server Error");
}
