//! The schemas that tools describe their arguments with.
use vstd::prelude::*;

use crate::json::{no_members, set_members_are_found, Json, JsonView};

verus! {

/// An argument of a type, with a description.
pub open spec fn argument(kind: Seq<char>, description: Seq<char>) -> JsonView {
    no_members().with("type"@, JsonView::Text(kind)).with(
        "description"@,
        JsonView::Text(description),
    )
}

/// An object with the given arguments, of which some are required.
pub open spec fn object_schema(arguments: JsonView, required: JsonView) -> JsonView {
    no_members().with("type"@, JsonView::Text("object"@)).with("properties"@, arguments).with(
        "required"@,
        required,
    )
}

/// An argument of a type, with a description.
pub fn argument_json(kind: &str, description: &str) -> (r: Json)
    ensures
        r@ == argument(kind@, description@),
{
    Json::object().with("type", Json::text(kind)).with("description", Json::text(description))
}

/// An object with the given arguments, of which some are required.
pub fn object_schema_json(arguments: Json, required: Json) -> (r: Json)
    ensures
        r@ == object_schema(arguments@, required@),
{
    Json::object().with("type", Json::text("object")).with("properties", arguments).with(
        "required",
        required,
    )
}

/// An argument that is a list of texts.
pub open spec fn list_argument(description: Seq<char>) -> JsonView {
    no_members().with("type"@, JsonView::Text("array"@)).with(
        "items"@,
        no_members().with("type"@, JsonView::Text("string"@)),
    ).with("description"@, JsonView::Text(description))
}

/// An argument that is a list of texts.
pub fn list_argument_json(description: &str) -> (r: Json)
    ensures
        r@ == list_argument(description@),
{
    Json::object().with("type", Json::text("array")).with(
        "items",
        Json::object().with("type", Json::text("string")),
    ).with("description", Json::text(description))
}

proof fn lemma_members()
    ensures
        forall|v: JsonView, key: Seq<char>, value: JsonView, other: Seq<char>|
            v is Object ==> #[trigger] v.with(key, value).get(other) == if other == key {
                Some(value)
            } else {
                v.get(other)
            },
        forall|v: JsonView, key: Seq<char>, value: JsonView|
            v is Object ==> #[trigger] v.with(key, value) is Object,
{
    assert forall|v: JsonView, key: Seq<char>, value: JsonView, other: Seq<char>|
        v is Object implies #[trigger] v.with(key, value).get(other) == if other == key {
        Some(value)
    } else {
        v.get(other)
    } by {
        set_members_are_found(v, key, value, other);
    }
}

/// A schema tells the type of each argument and what it is for, which arguments there
/// are and which of them are required.
pub proof fn schemas_tell_of_the_arguments(
    kind: Seq<char>,
    description: Seq<char>,
    arguments: JsonView,
    required: JsonView,
)
    ensures
        argument(kind, description).text_at("type"@) == Some(kind),
        argument(kind, description).text_at("description"@) == Some(description),
        list_argument(description).text_at("type"@) == Some("array"@),
        list_argument(description).text_at("description"@) == Some(description),
        list_argument(description).get("items"@) matches Some(i) && i.text_at("type"@) == Some(
            "string"@,
        ),
        object_schema(arguments, required).text_at("type"@) == Some("object"@),
        object_schema(arguments, required).get("properties"@) == Some(arguments),
        object_schema(arguments, required).get("required"@) == Some(required),
{
    lemma_members();
    reveal_strlit("type");
    reveal_strlit("description");
    reveal_strlit("items");
    reveal_strlit("properties");
    reveal_strlit("required");
    assert("type"@.len() == 4 && "description"@.len() == 11 && "items"@.len() == 5
        && "properties"@.len() == 10 && "required"@.len() == 8);
    let item = no_members().with("type"@, JsonView::Text("string"@));
    assert(item.get("type"@) == Some(JsonView::Text("string"@)));
    assert(list_argument(description).get("items"@) == Some(item));
}

} // verus!
