//! What the policy decides on a request, and what it stamps on the response.

use crate::cache::{served, LockOutcome};
use crate::config::Config;
use crate::fields::{header_texts, Fields};
use crate::json::{json_document, member_text, parse_json, Json, JsonView};
use crate::ordered::{has_key, keys_ascend, pairs_map};
use crate::summary::{a_summary_describes_the_asset, summary_fields};
use crate::text::{begins_with, occurs_at, same_text, trim, trimmed};
use vstd::prelude::*;

verus! {

/// The request header that names an asset where the configuration gives no other.
pub const DEFAULT_SCHEMA_ID_HEADER: &'static str = "x-dp-schema-id";

/// What a request hands on to its response.
#[derive(Debug)]
pub struct Ctx {
    pub fields: Fields,
}

impl Clone for Ctx {
    fn clone(&self) -> (r: Self)
        ensures
            r.fields@ == self.fields@,
    {
        Ctx { fields: self.fields.clone() }
    }
}

impl Ctx {
    /// The context of a request that was served some fields, or none.
    pub fn of(served: Option<Fields>) -> (r: Self)
        ensures
            r.fields@ == context_fields(crate::cache::fields_view(served)),
    {
        match served {
            Some(fields) => Ctx { fields },
            None => Ctx { fields: Fields::new() },
        }
    }
}

/// The fields that a request hands on.
pub open spec fn context_fields(served: Option<Map<Seq<char>, Seq<char>>>) -> Map<
    Seq<char>,
    Seq<char>,
> {
    match served {
        Some(fields) => fields,
        None => Map::empty(),
    }
}

/// The JSON-RPC method carries data-product content that is worth enriching.
pub open spec fn content_method(method: Seq<char>) -> bool {
    ||| method == "tools/call"@
    ||| method == "resources/read"@
    ||| method == "prompts/get"@
    ||| method == "message/send"@
    ||| method == "message/stream"@
    ||| method == "SendMessage"@
    ||| method == "SendStreamingMessage"@
}

/// Whether a JSON-RPC method carries data-product content that is worth enriching.
pub fn is_content_method(method: &str) -> (r: bool)
    ensures
        r == content_method(method@),
{
    same_text(method, "tools/call") || same_text(method, "resources/read") || same_text(
        method,
        "prompts/get",
    ) || same_text(method, "message/send") || same_text(method, "message/stream") || same_text(
        method,
        "SendMessage",
    ) || same_text(method, "SendStreamingMessage")
}

/// The name of the request header that names an asset.
pub open spec fn schema_header(configured: Option<String>) -> Seq<char> {
    match configured {
        Some(name) => name@,
        None => DEFAULT_SCHEMA_ID_HEADER@,
    }
}

/// The name of the request header that names an asset.
pub fn schema_id_header(config: &Config) -> (r: String)
    ensures
        r@ == schema_header(config.schema_id_header),
{
    match &config.schema_id_header {
        Some(name) => name.clone(),
        None => DEFAULT_SCHEMA_ID_HEADER.to_string(),
    }
}

/// The asset that a request is about. A claim wins over the header, and a header that is not blank
/// wins over the configuration.
pub open spec fn chosen_schema_id(
    configured: Seq<char>,
    claim: Option<Seq<char>>,
    header: Option<Seq<char>>,
) -> Seq<char> {
    match (claim, header) {
        (Some(claim), _) => claim,
        (None, Some(header)) => if trimmed(header).len() > 0 {
            header
        } else {
            configured
        },
        (None, None) => configured,
    }
}

/// What an optional text holds.
pub open spec fn optional_text(text: Option<String>) -> Option<Seq<char>> {
    match text {
        Some(text) => Some(text@),
        None => None,
    }
}

/// The asset that a request is about, from the configured claim and from the header, where the
/// request has them.
pub fn schema_id(config: &Config, claim: Option<String>, header: Option<String>) -> (r: String)
    ensures
        r@ == chosen_schema_id(config.schema_id@, optional_text(claim), optional_text(header)),
{
    if let Some(claim) = claim {
        return claim;
    }
    if let Some(header) = header {
        if trim(header.as_str()).as_str().unicode_len() > 0 {
            return header;
        }
    }
    config.schema_id.clone()
}

/// The body of the request says whether it carries content: a JSON POST.
pub open spec fn body_decides(content_type: Option<Seq<char>>, method: Seq<char>) -> bool {
    &&& content_type matches Some(text) && occurs_at(text, "application/json"@, 0)
    &&& method == "POST"@
}

/// Whether the body of a request says whether it carries content.
pub fn reads_body(content_type: Option<String>, method: &str) -> (r: bool)
    ensures
        r == body_decides(optional_text(content_type), method@),
{
    match content_type {
        Some(text) => begins_with(text.as_str(), "application/json") && same_text(method, "POST"),
        None => false,
    }
}

/// A body asks for the response to be enriched: it names no JSON-RPC method, or one that carries
/// content. `None` is a body that is no JSON.
pub open spec fn asks_for_content(document: Option<JsonView>) -> bool {
    match document {
        Some(value) => match member_text(value, "method"@) {
            Some(method) => content_method(method),
            None => true,
        },
        None => true,
    }
}

/// Whether a JSON document asks for the response to be enriched.
pub fn document_asks_for_content(document: &Json) -> (r: bool)
    ensures
        r == asks_for_content(Some(document.view())),
{
    match document.text_at("method") {
        Some(method) => is_content_method(method.as_str()),
        None => true,
    }
}

/// Whether the body of a request asks for the response to be enriched.
pub fn body_asks_for_content(body: &[u8]) -> (r: bool)
    ensures
        r == asks_for_content(json_document(body@)),
{
    match parse_json(body) {
        Ok(document) => document_asks_for_content(&document),
        Err(_) => true,
    }
}

/// The headers that a response gets, in the order in which they are set.
pub open spec fn stamped(
    fields: Seq<(Seq<char>, Seq<char>)>,
    header_on_miss: Option<bool>,
) -> Seq<(Seq<char>, Seq<char>)> {
    if fields.len() > 0 {
        fields + seq![
            ("x-dp-metadata-source"@, "cdgc"@),
            ("x-dp-metadata-status"@, "ok"@),
        ]
    } else if header_on_miss != Some(false) {
        seq![("x-dp-metadata-status"@, "unavailable"@)]
    } else {
        Seq::empty()
    }
}

fn header(name: &str, value: &str) -> (r: (String, String))
    ensures
        (r.0@, r.1@) == (name@, value@),
{
    (name.to_string(), value.to_string())
}

proof fn lemma_header_texts_push(headers: Seq<(String, String)>, next: (String, String))
    ensures
        header_texts(headers.push(next)) == header_texts(headers).push((next.0@, next.1@)),
{
    assert(header_texts(headers.push(next)) =~= header_texts(headers).push((next.0@, next.1@)));
}

/// The headers to set on a response. A request without a context gets none.
pub fn response_headers(context: Option<&Ctx>, config: &Config) -> (r: Vec<(String, String)>)
    ensures
        match context {
            Some(context) => {
                &&& header_texts(r@) == stamped(context.fields.pairs(), config.header_on_miss)
                &&& keys_ascend(context.fields.pairs())
                &&& pairs_map(context.fields.pairs()) == context.fields@
            },
            None => r@.len() == 0,
        },
{
    let mut out: Vec<(String, String)> = Vec::new();
    let context = match context {
        Some(context) => context,
        None => {
            return out;
        },
    };
    let entries = context.fields.entries();
    if entries.len() > 0 {
        let mut i: usize = 0;
        while i < entries.len()
            invariant
                i <= entries@.len(),
                header_texts(out@) == header_texts(entries@).take(i as int),
            decreases entries@.len() - i,
        {
            let ghost before = out@;
            out.push((entries[i].0.clone(), entries[i].1.clone()));
            proof {
                lemma_header_texts_push(before, out@.last());
                assert(out@ =~= before.push(out@.last()));
                assert(header_texts(entries@).take(i + 1) =~= header_texts(entries@).take(
                    i as int,
                ).push(header_texts(entries@)[i as int]));
            }
            i += 1;
        }
        let ghost listed = out@;
        let source = header("x-dp-metadata-source", "cdgc");
        let status = header("x-dp-metadata-status", "ok");
        out.push(source);
        out.push(status);
        proof {
            lemma_header_texts_push(listed, source);
            lemma_header_texts_push(listed.push(source), status);
        }
        assert(header_texts(out@) =~= stamped(context.fields.pairs(), config.header_on_miss));
        return out;
    }
    let on_miss: bool = match config.header_on_miss {
        Some(on_miss) => on_miss,
        None => true,
    };
    if on_miss {
        out.push(header("x-dp-metadata-status", "unavailable"));
    }
    assert(header_texts(out@) =~= stamped(context.fields.pairs(), config.header_on_miss));
    out
}

/// Where neither the cache nor the catalog has anything, the response says so, unless the
/// configuration keeps it silent.
pub proof fn an_outage_is_reported(
    now: int,
    outcome: LockOutcome,
    config: Config,
    fields: Seq<(Seq<char>, Seq<char>)>,
)
    requires
        pairs_map(fields) == context_fields(served(None, now, outcome, None, config)),
        config.header_on_miss != Some(false),
    ensures
        stamped(fields, config.header_on_miss) == seq![
            ("x-dp-metadata-status"@, "unavailable"@),
        ],
{
    if fields.len() > 0 {
        assert(has_key(fields, fields[0].0));
        assert(pairs_map(fields).dom().contains(fields[0].0));
    }
}

/// The response to a request that was served a summary carries the fields of the summary, in
/// ascending order, with its source and the status `ok`. All of their names begin with `x-dp-`.
pub proof fn a_summary_is_stamped(
    file: JsonView,
    columns: Seq<(Seq<char>, Seq<char>)>,
    required: Seq<Seq<char>>,
    sensitive: Seq<Seq<char>>,
    header_on_miss: Option<bool>,
    fields: Seq<(Seq<char>, Seq<char>)>,
)
    requires
        keys_ascend(fields),
        pairs_map(fields) == context_fields(
            Some(summary_fields(file, columns, required, sensitive)),
        ),
    ensures
        stamped(fields, header_on_miss) == fields + seq![
            ("x-dp-metadata-source"@, "cdgc"@),
            ("x-dp-metadata-status"@, "ok"@),
        ],
        forall|i: int|
            0 <= i < stamped(fields, header_on_miss).len() ==> occurs_at(
                (#[trigger] stamped(fields, header_on_miss)[i]).0,
                "x-dp-"@,
                0,
            ),
{
    let summary = summary_fields(file, columns, required, sensitive);
    a_summary_describes_the_asset(file, columns, required, sensitive);
    assert(summary.dom().contains("x-dp-field-count"@));
    assert(pairs_map(fields).dom().contains("x-dp-field-count"@));
    assert(fields.len() > 0);
    let all = stamped(fields, header_on_miss);
    assert forall|i: int| 0 <= i < all.len() implies occurs_at(
        (#[trigger] all[i]).0,
        "x-dp-"@,
        0,
    ) by {
        if i < fields.len() {
            assert(all[i] == fields[i]);
            assert(has_key(fields, fields[i].0));
            assert(pairs_map(fields).dom().contains(fields[i].0));
            assert(summary.dom().contains(fields[i].0));
        }
        lemma_stamped_names_begin_alike(all[i].0);
    }
}

proof fn lemma_stamped_names_begin_alike(name: Seq<char>)
    requires
        name == "x-dp-name"@ || name == "x-dp-external-id"@ || name == "x-dp-source"@ || name
            == "x-dp-field-count"@ || name == "x-dp-fields"@ || name == "x-dp-required"@ || name
            == "x-dp-sensitive"@ || name == "x-dp-metadata-source"@ || name
            == "x-dp-metadata-status"@,
    ensures
        occurs_at(name, "x-dp-"@, 0),
{
    reveal_strlit("x-dp-");
    reveal_strlit("x-dp-name");
    reveal_strlit("x-dp-external-id");
    reveal_strlit("x-dp-source");
    reveal_strlit("x-dp-field-count");
    reveal_strlit("x-dp-fields");
    reveal_strlit("x-dp-required");
    reveal_strlit("x-dp-sensitive");
    reveal_strlit("x-dp-metadata-source");
    reveal_strlit("x-dp-metadata-status");
    assert(name.subrange(0, 5) =~= "x-dp-"@);
}

/// A request that names an asset by a claim, or by a header that is not blank, is about that asset;
/// every other request is about the configured one.
pub proof fn a_claim_wins_over_the_header(
    configured: Seq<char>,
    claim: Seq<char>,
    header: Option<Seq<char>>,
)
    ensures
        chosen_schema_id(configured, Some(claim), header) == claim,
        header matches Some(text) && trimmed(text).len() > 0 ==> chosen_schema_id(
            configured,
            None,
            header,
        ) == header->0,
        (header matches Some(text) ==> trimmed(text).len() == 0) ==> chosen_schema_id(
            configured,
            None,
            header,
        ) == configured,
{
}

/// Only seven methods carry content, letter for letter. A document that names another method asks for
/// none; one that names no method, and a body that is no document, does ask.
pub proof fn seven_methods_carry_content(
    members: Map<Seq<char>, JsonView>,
    method: Seq<char>,
)
    ensures
        content_method(method) <==> seq![
            "tools/call"@,
            "resources/read"@,
            "prompts/get"@,
            "message/send"@,
            "message/stream"@,
            "SendMessage"@,
            "SendStreamingMessage"@,
        ].contains(method),
        members.dom().contains("method"@) && members["method"@] == JsonView::Text(method) ==> (
        asks_for_content(Some(JsonView::Object(members))) <==> seq![
            "tools/call"@,
            "resources/read"@,
            "prompts/get"@,
            "message/send"@,
            "message/stream"@,
            "SendMessage"@,
            "SendStreamingMessage"@,
        ].contains(method)),
        !members.dom().contains("method"@) || !(members["method"@] is Text) ==> asks_for_content(
            Some(JsonView::Object(members)),
        ),
        asks_for_content(None),
{
    let seven = seq![
        "tools/call"@,
        "resources/read"@,
        "prompts/get"@,
        "message/send"@,
        "message/stream"@,
        "SendMessage"@,
        "SendStreamingMessage"@,
    ];
    assert(seven[0] == "tools/call"@);
    assert(seven[1] == "resources/read"@);
    assert(seven[2] == "prompts/get"@);
    assert(seven[3] == "message/send"@);
    assert(seven[4] == "message/stream"@);
    assert(seven[5] == "SendMessage"@);
    assert(seven[6] == "SendStreamingMessage"@);
}

/// A document that is no object names no method, and so asks for content.
pub proof fn other_documents_ask_for_content(document: JsonView)
    ensures
        !(document is Object) ==> asks_for_content(Some(document)),
{
}

/// A method that only begins like one that carries content carries none.
pub proof fn a_longer_method_carries_no_content(method: Seq<char>, more: Seq<char>)
    requires
        content_method(method),
        more.len() > 0,
    ensures
        !content_method(method + more),
{
    reveal_strlit("tools/call");
    reveal_strlit("resources/read");
    reveal_strlit("prompts/get");
    reveal_strlit("message/send");
    reveal_strlit("message/stream");
    reveal_strlit("SendMessage");
    reveal_strlit("SendStreamingMessage");
    let longer = method + more;
    assert("tools/call"@[0] == 't');
    assert("resources/read"@[0] == 'r');
    assert("prompts/get"@[0] == 'p');
    assert("message/send"@[0] == 'm' && "message/send"@[9] == 'e');
    assert("message/stream"@[0] == 'm' && "message/stream"@[9] == 't');
    assert("SendMessage"@[0] == 'S' && "SendMessage"@[4] == 'M');
    assert("SendStreamingMessage"@[0] == 'S' && "SendStreamingMessage"@[4] == 'S');
    assert(longer[0] == method[0]);
    assert(longer[4] == method[4]);
    assert(longer[9] == method[9]);
}

/// The asset header is the configured one, or `x-dp-schema-id`.
pub proof fn the_asset_header_is_configured(name: String)
    ensures
        schema_header(Some(name)) == name@,
        schema_header(None) == "x-dp-schema-id"@,
{
}

/// The body of a request is looked at exactly where it is posted with a content type that begins with
/// `application/json`.
pub proof fn only_json_posts_are_looked_at(
    content_type: Option<Seq<char>>,
    method: Seq<char>,
)
    ensures
        body_decides(content_type, method) <==> method == "POST"@ && content_type is Some
            && exists|rest: Seq<char>|
            content_type->0 == #[trigger] ("application/json"@ + rest),
{
    match content_type {
        Some(text) => {
            crate::text::a_pattern_stands_where_its_characters_do(text, "application/json"@, 0);
        },
        None => {},
    }
}

/// Fields are stamped as they are, with their source and the status `ok` behind them. Without fields
/// the status is `unavailable`, or nothing is stamped where the configuration says so.
pub proof fn fields_are_stamped_with_their_status(
    fields: Seq<(Seq<char>, Seq<char>)>,
    header_on_miss: Option<bool>,
)
    ensures
        fields.len() > 0 ==> {
            let all = stamped(fields, header_on_miss);
            &&& all.len() == fields.len() + 2
            &&& forall|i: int| 0 <= i < fields.len() ==> #[trigger] all[i] == fields[i]
            &&& all[fields.len() as int] == ("x-dp-metadata-source"@, "cdgc"@)
            &&& all[(fields.len() + 1) as int] == ("x-dp-metadata-status"@, "ok"@)
        },
        fields.len() == 0 && header_on_miss != Some(false) ==> stamped(fields, header_on_miss)
            == seq![("x-dp-metadata-status"@, "unavailable"@)],
        fields.len() == 0 && header_on_miss == Some(false) ==> stamped(fields, header_on_miss).len()
            == 0,
{
}

/// A request hands on exactly the fields that it was served, and none where it was served none.
pub proof fn a_request_hands_on_what_it_was_served(
    fields: Map<Seq<char>, Seq<char>>,
    text: String,
)
    ensures
        context_fields(Some(fields)) == fields,
        context_fields(None).dom() == Set::<Seq<char>>::empty(),
        optional_text(Some(text)) == Some(text@),
        optional_text(None) is None,
{
}

} // verus!
