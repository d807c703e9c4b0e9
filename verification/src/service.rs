//! The recipe request service: prompt construction, interpretation of the
//! backend's reply, and the response envelope of the HTTP form.
//!
//! The service is stateless: each generation is one prompt, one backend
//! call, and one parse of the reply. The network call itself lives outside
//! the library; the caller hands the outcome of the call (the reply text,
//! or the transport error's message) to `interpret_reply`.

use vstd::prelude::*;

use crate::json::{ser, Json, Jv};
use crate::recipe::{ParseError, Recipe};

verus! {

/// The request body of the `POST /generate` endpoint: a free-text list of
/// ingredients, passed through verbatim into the prompt.
pub struct Ingredients {
    pub ingredients: String,
}

/// The prompt that is sent to the backend for a given ingredient string:
/// a fixed template with the ingredients spliced in verbatim.
pub open spec fn prompt_of(ingredients: Seq<char>) -> Seq<char> {
    "Generate a creative sandwich recipe using "@ + ingredients + " in JSON format."@
}

/// Builds the prompt for the given ingredient string. The string is not
/// validated: an empty string is spliced in verbatim like any other.
pub fn build_prompt(ingredients: &str) -> (prompt: String)
    ensures
        prompt@ == prompt_of(ingredients@),
{
    let mut prompt = "Generate a creative sandwich recipe using ".to_owned();
    prompt.append(ingredients);
    prompt.append(" in JSON format.");
    prompt
}

impl Ingredients {
    /// The prompt for this request body.
    pub fn prompt(&self) -> (prompt: String)
        ensures
            prompt@ == prompt_of(self.ingredients@),
    {
        build_prompt(self.ingredients.as_str())
    }
}

/// Why a generation failed: the backend call itself failed (with the
/// transport's message), or its reply could not be parsed as a recipe.
#[derive(Debug)]
pub enum GenerateError {
    Transport(String),
    Parse(ParseError),
}

impl GenerateError {
    /// The user-facing message for this failure, with the transport detail
    /// or the parse failure spelled out.
    pub fn message(&self) -> (m: String)
        ensures
            (self matches GenerateError::Transport(e) ==> m@ == "Chat error: "@ + e@),
            self matches GenerateError::Parse(ParseError::InvalidJson) ==> m@
                == "Failed to parse JSON: not valid JSON text"@,
            self matches GenerateError::Parse(ParseError::InvalidShape) ==> m@
                == "Failed to parse JSON: value does not match the recipe shape"@,
    {
        match self {
            GenerateError::Transport(e) => {
                let mut m = "Chat error: ".to_owned();
                m.append(e.as_str());
                m
            },
            GenerateError::Parse(ParseError::InvalidJson) => "Failed to parse JSON: not valid JSON text".to_owned(),
            GenerateError::Parse(ParseError::InvalidShape) => "Failed to parse JSON: value does not match the recipe shape".to_owned(),
        }
    }
}

/// Turns the outcome of the backend call into the service's result: a
/// failed call becomes a transport error with the call's message kept
/// verbatim, and a reply is parsed as a recipe, with the two parse failure
/// cases kept distinct from the transport case.
pub fn interpret_reply(reply: Result<String, String>) -> (r: Result<Recipe, GenerateError>)
    ensures
        (reply matches Err(e) ==> r == Result::<Recipe, GenerateError>::Err(
            GenerateError::Transport(e),
        )),
        (reply matches Ok(text) ==> match r {
            Ok(rec) => (crate::json::parse_text(text@) matches Some(j)
                && crate::recipe::recipe_of_json(j) == Some(rec@)),
            Err(GenerateError::Parse(ParseError::InvalidJson)) => crate::json::parse_text(
                text@,
            ) is None,
            Err(GenerateError::Parse(ParseError::InvalidShape)) => (crate::json::parse_text(text@)
                matches Some(j) && crate::recipe::recipe_of_json(j) is None),
            Err(GenerateError::Transport(_)) => false,
        }),
{
    match reply {
        Ok(text) => match Recipe::parse(text.as_str()) {
            Ok(rec) => Ok(rec),
            Err(pe) => Err(GenerateError::Parse(pe)),
        },
        Err(e) => Err(GenerateError::Transport(e)),
    }
}

/// The JSON body of a successful HTTP response: the backend's reply text,
/// wrapped unparsed in a `result` member.
pub open spec fn success_body(reply: Seq<char>) -> Seq<char> {
    ser(Jv::Obj(seq![("result"@, Jv::Str(reply))]))
}

/// The JSON body of a failed HTTP response: a generic `error` member that
/// discards the distinguishing detail.
pub open spec fn error_body() -> Seq<char> {
    ser(Jv::Obj(seq![("error"@, Jv::Str("API request failed"@))]))
}

/// Shapes the HTTP response of the `POST /generate` endpoint: status 200
/// with the reply wrapped in a `result` member, or status 500 with the
/// generic error body on any backend failure.
pub fn sandwich_response(outcome: Result<String, String>) -> (resp: (String, u16))
    ensures
        (outcome matches Ok(reply) ==> resp.1 == 200 && resp.0@ == success_body(reply@)),
        outcome is Err ==> resp.1 == 500 && resp.0@ == error_body(),
{
    match outcome {
        Ok(reply) => {
            let ghost replyv = reply@;
            let mut ms: Vec<(String, Json)> = Vec::new();
            ms.push(("result".to_owned(), Json::Str(reply)));
            let body = Json::Obj(ms);
            proof {
                crate::json::lemma_jv_members(body->Obj_0@);
                assert(crate::json::jv_members(body->Obj_0@) =~= seq![("result"@, Jv::Str(replyv))]);
            }
            (body.to_text(), 200)
        },
        Err(_) => {
            let mut ms: Vec<(String, Json)> = Vec::new();
            ms.push(("error".to_owned(), Json::Str("API request failed".to_owned())));
            let body = Json::Obj(ms);
            proof {
                crate::json::lemma_jv_members(body->Obj_0@);
                assert(crate::json::jv_members(body->Obj_0@) =~= seq![
                    ("error"@, Jv::Str("API request failed"@)),
                ]);
            }
            (body.to_text(), 500)
        },
    }
}

} // verus!
