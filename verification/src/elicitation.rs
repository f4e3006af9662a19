//! Requests for input that an MCP server sends, and the answers to them.

use vstd::prelude::*;

use crate::json::{entries_view, well_formed, Json, JsonView};

verus! {

/// The answer of the user.
#[derive(Clone, Copy, Debug, PartialEq, Eq, Structural)]
pub enum ElicitationAction {
    Accept,
    Decline,
    Cancel,
}

/// An answer to an elicitation.
#[derive(Debug, PartialEq)]
pub struct ElicitationResponse {
    pub action: ElicitationAction,
    pub content: Option<Json>,
    pub meta: Option<Json>,
}

/// What an `ElicitationResponse` stands for.
#[verifier::ext_equal]
pub struct ResponseView {
    pub action: ElicitationAction,
    pub content: Option<JsonView>,
    pub meta: Option<JsonView>,
}

/// What an optional value stands for.
pub open spec fn option_view(value: Option<Json>) -> Option<JsonView> {
    match value {
        Some(json) => Some(json@),
        None => None,
    }
}

impl View for ElicitationResponse {
    type V = ResponseView;

    open spec fn view(&self) -> ResponseView {
        ResponseView {
            action: self.action,
            content: option_view(self.content),
            meta: option_view(self.meta),
        }
    }
}

/// In the content and the metadata no object has a key twice.
pub open spec fn well_formed_response(response: ResponseView) -> bool {
    &&& response.content matches Some(content) ==> well_formed(content)
    &&& response.meta matches Some(meta) ==> well_formed(meta)
}

/// The form that an elicitation asks to be filled in: the names of its fields.
#[derive(Debug, PartialEq)]
pub struct ElicitationSchema {
    pub properties: Vec<String>,
}

/// What the protocol lets a server ask for.
#[derive(Debug, PartialEq)]
pub enum ElicitRequestParams {
    FormElicitationParams {
        meta: Option<Vec<(String, Json)>>,
        requested_schema: ElicitationSchema,
    },
    UrlElicitationParams { meta: Option<Vec<(String, Json)>> },
}

/// An elicitation, as the protocol or an extension of it defines it.
#[derive(Debug, PartialEq)]
pub enum Elicitation {
    Mcp(ElicitRequestParams),
    OpenAiForm { meta: Option<Vec<(String, Json)>> },
    OpenAiElicitationForm { meta: Option<Vec<(String, Json)>> },
}

/// The metadata of an elicitation.
pub open spec fn meta_of(elicitation: Elicitation) -> Option<Seq<(Seq<char>, JsonView)>> {
    let meta = match elicitation {
        Elicitation::Mcp(ElicitRequestParams::FormElicitationParams { meta, .. }) => meta,
        Elicitation::Mcp(ElicitRequestParams::UrlElicitationParams { meta }) => meta,
        Elicitation::OpenAiForm { meta } => meta,
        Elicitation::OpenAiElicitationForm { meta } => meta,
    };
    match meta {
        Some(entries) => Some(entries_view(entries@)),
        None => None,
    }
}

/// In the metadata no object, the outermost one included, has a key twice.
pub open spec fn well_formed_elicitation(elicitation: Elicitation) -> bool {
    meta_of(elicitation) matches Some(entries) ==> well_formed(JsonView::Object(entries))
}

/// The elicitation asks for nothing but a yes or no: it is a form without
/// fields.
pub open spec fn asks_for_confirmation(elicitation: Elicitation) -> bool {
    elicitation matches Elicitation::Mcp(params)
        && params matches ElicitRequestParams::FormElicitationParams { requested_schema, .. }
        && requested_schema.properties@.len() == 0
}

impl Elicitation {
    /// The metadata that came with the elicitation.
    pub fn meta(&self) -> (meta: Option<&Vec<(String, Json)>>)
        ensures
            match meta {
                Some(entries) => meta_of(*self) == Some(entries_view(entries@)),
                None => meta_of(*self) is None,
            },
    {
        match self {
            Elicitation::Mcp(ElicitRequestParams::FormElicitationParams { meta, .. }) => meta.as_ref(),
            Elicitation::Mcp(ElicitRequestParams::UrlElicitationParams { meta }) => meta.as_ref(),
            Elicitation::OpenAiForm { meta } => meta.as_ref(),
            Elicitation::OpenAiElicitationForm { meta } => meta.as_ref(),
        }
    }
}

/// Whether the elicitation is a form without fields.
pub fn is_confirmation(elicitation: &Elicitation) -> (result: bool)
    ensures
        result == asks_for_confirmation(*elicitation),
{
    match elicitation {
        Elicitation::Mcp(
            ElicitRequestParams::FormElicitationParams { requested_schema, .. },
        ) => requested_schema.properties.is_empty(),
        Elicitation::Mcp(ElicitRequestParams::UrlElicitationParams { .. })
        | Elicitation::OpenAiForm { .. }
        | Elicitation::OpenAiElicitationForm { .. } => false,
    }
}

/// Whether a form of the protocol asks for more than a confirmation is decided
/// by its fields alone; its metadata is what came with it.
pub proof fn law_form_is_confirmed_by_its_fields(
    meta: Option<Vec<(String, Json)>>,
    requested_schema: ElicitationSchema,
)
    ensures
        ({
            let form = Elicitation::Mcp(
                ElicitRequestParams::FormElicitationParams { meta, requested_schema },
            );
            &&& asks_for_confirmation(form) <==> requested_schema.properties@.len() == 0
            &&& meta is None <==> meta_of(form) is None
            &&& meta is Some ==> meta_of(form) == Some(entries_view(meta->0@))
        }),
{
}

/// What is no form of the protocol is never a confirmation; its metadata too is
/// what came with it.
pub proof fn law_only_forms_are_confirmations(
    meta: Option<Vec<(String, Json)>>,
    elicitation: Elicitation,
)
    requires
        ({
            ||| elicitation == Elicitation::Mcp(ElicitRequestParams::UrlElicitationParams { meta })
            ||| elicitation == (Elicitation::OpenAiForm { meta })
            ||| elicitation == (Elicitation::OpenAiElicitationForm { meta })
        }),
    ensures
        !asks_for_confirmation(elicitation),
        meta is None <==> meta_of(elicitation) is None,
        meta is Some ==> meta_of(elicitation) == Some(entries_view(meta->0@)),
{
}

/// An answer stands for its action, its content and its metadata.
pub proof fn law_response_view_shows_all(response: ElicitationResponse)
    ensures
        response@.action == response.action,
        response.content is None <==> response@.content is None,
        response.content is Some ==> response@.content == Some(response.content->0@),
        response.meta is None <==> response@.meta is None,
        response.meta is Some ==> response@.meta == Some(response.meta->0@),
{
}

/// An answer is well-formed exactly if its content and its metadata are.
pub proof fn law_response_is_well_formed_in_its_parts(response: ResponseView)
    ensures
        well_formed_response(response) <==> (response.content is Some ==> well_formed(
            response.content->0,
        )) && (response.meta is Some ==> well_formed(response.meta->0)),
{
}

/// An elicitation without metadata is well-formed, and one with metadata if
/// that is, as an object.
pub proof fn law_elicitation_is_well_formed_in_its_metadata(elicitation: Elicitation)
    ensures
        meta_of(elicitation) is None ==> well_formed_elicitation(elicitation),
        meta_of(elicitation) is Some ==> well_formed_elicitation(elicitation) == well_formed(
            JsonView::Object(meta_of(elicitation)->0),
        ),
{
}

} // verus!
