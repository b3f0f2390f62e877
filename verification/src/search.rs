//! The catalog's search call and its queries.

use crate::auth::{per_call_ms, Session};
use crate::calls::{failed_status, is_posted, post_json, FetchError, Leg, OutboundCall, Service};
use crate::clock::call_limit_ms;
use crate::config::Config;
use crate::fields::header_texts;
use crate::json::{
    body_items_view, body_members_view, items_view, json_reading, member, parse_json, Body, Json,
    JsonView,
};
use crate::number::decimal;
use crate::text::texts;
use vstd::prelude::*;
use vstd::string::*;

verus! {

/// Prepares a search.
pub fn search_request(
    config: &Config,
    session: &Session,
    query: &Body,
    elapsed: i64,
) -> (r: Result<OutboundCall, FetchError>)
    ensures
        is_posted(
            r,
            Leg::Search,
            Service::Search,
            "/ccgf-searchv2/api/v1/search"@,
            seq![
                ("Authorization"@, "Bearer "@ + session.jwt@),
                ("X-INFA-ORG-ID"@, session.org@),
                ("X-INFA-SEARCH-LANGUAGE"@, "elasticsearch"@),
                ("Content-Type"@, "application/json"@),
            ],
            query.view(),
            call_limit_ms(per_call_ms(*config), elapsed as int),
        ),
{
    let bearer = "Bearer ".to_string().concat(session.jwt.as_str());
    let mut headers: Vec<(String, String)> = Vec::new();
    headers.push(("Authorization".to_string(), bearer));
    headers.push(("X-INFA-ORG-ID".to_string(), session.org.clone()));
    headers.push(("X-INFA-SEARCH-LANGUAGE".to_string(), "elasticsearch".to_string()));
    headers.push(("Content-Type".to_string(), "application/json".to_string()));
    assert(header_texts(headers@) =~= seq![
        ("Authorization"@, "Bearer "@ + session.jwt@),
        ("X-INFA-ORG-ID"@, session.org@),
        ("X-INFA-SEARCH-LANGUAGE"@, "elasticsearch"@),
        ("Content-Type"@, "application/json"@),
    ]);
    post_json(
        Leg::Search,
        Service::Search,
        "/ccgf-searchv2/api/v1/search".to_string(),
        headers,
        query,
        config.call_timeout_ms(),
        elapsed,
    )
}

/// The sources of some hits, in order. A hit without one is passed over.
pub open spec fn sources(hits: Seq<JsonView>) -> Seq<JsonView>
    decreases hits.len(),
{
    if hits.len() == 0 {
        Seq::empty()
    } else {
        let before = sources(hits.drop_last());
        match member(hits.last(), "sourceAsMap"@) {
            Some(source) => before.push(source),
            None => before,
        }
    }
}

/// What a search found: the sources of the hits that the answer lists.
pub open spec fn found(answer: JsonView) -> Seq<JsonView> {
    match member(answer, "hits"@) {
        Some(outer) => match member(outer, "hits"@) {
            Some(JsonView::Array(hits)) => sources(hits),
            _ => Seq::empty(),
        },
        None => Seq::empty(),
    }
}

/// Takes what a search found out of its answer. An answer of another shape found nothing.
pub fn found_in(answer: Json) -> (r: Vec<Json>)
    ensures
        items_view(r@) == found(answer.view()),
{
    let mut out: Vec<Json> = Vec::new();
    let outer = match answer.take("hits") {
        Some(outer) => outer,
        None => {
            return out;
        },
    };
    match outer.take("hits") {
        Some(Json::Array(hits)) => {
            let ghost all = hits@;
            assert(all.take(0) =~= Seq::<Json>::empty());
            for hit in it: hits
                invariant
                    it.seq() == all,
                    items_view(out@) == sources(items_view(all.take(it.index() as int))),
            {
                let ghost done = it.index() as int;
                let ghost before = out@;
                proof {
                    assert(all.take(done + 1).drop_last() =~= all.take(done));
                    assert(all.take(done + 1).last() == hit);
                    assert(items_view(all.take(done + 1)).drop_last() =~= items_view(
                        all.take(done),
                    ));
                }
                match hit.take("sourceAsMap") {
                    Some(source) => {
                        out.push(source);
                        assert(out@.drop_last() =~= before);
                    },
                    None => {},
                }
            }
            assert(all.take(all.len() as int) =~= all);
            out
        },
        _ => out,
    }
}

/// Reads the answer to a search.
pub fn search_reply(status: u32, body: &[u8]) -> (r: Result<Vec<Json>, FetchError>)
    ensures
        if failed_status(status) {
            r matches Err(FetchError::Status(at, s)) && at == Leg::Search && s == status
        } else {
            match json_reading(body@) {
                Ok(answer) => r matches Ok(sources) && items_view(sources@) == found(answer),
                Err(words) => r matches Err(FetchError::Parse(at, out)) && at == Leg::Search
                    && out@ == words,
            }
        },
{
    if status >= 300 {
        return Err(FetchError::Status(Leg::Search, status));
    }
    match parse_json(body) {
        Ok(answer) => Ok(found_in(answer)),
        Err(e) => Err(FetchError::Parse(Leg::Search, e)),
    }
}

/// A list of texts.
pub open spec fn text_list(values: Seq<Seq<char>>) -> JsonView {
    JsonView::Array(values.map_values(|text: Seq<char>| JsonView::Text(text)))
}

/// An object with one member.
pub open spec fn one_member(name: Seq<char>, value: JsonView) -> JsonView {
    JsonView::Object(Map::<Seq<char>, JsonView>::empty().insert(name, value))
}

/// The condition that a field has one of some values.
pub open spec fn terms_clause(field: Seq<char>, values: Seq<Seq<char>>) -> JsonView {
    one_member("terms"@, one_member(field, text_list(values)))
}

/// A query for the first `size` sources that meet every condition of `must`, and of `filter` where
/// there is one.
pub open spec fn search_query(
    size: nat,
    must: Seq<JsonView>,
    filter: Option<Seq<JsonView>>,
) -> JsonView {
    let conditions = match filter {
        Some(filter) => JsonView::Object(
            map!["must"@ => JsonView::Array(must), "filter"@ => JsonView::Array(filter)],
        ),
        None => one_member("must"@, JsonView::Array(must)),
    };
    JsonView::Object(
        map![
            "from"@ => JsonView::Number(decimal(0)),
            "size"@ => JsonView::Number(decimal(size)),
            "query"@ => one_member("bool"@, conditions),
        ],
    )
}

proof fn lemma_one_more_member(members: Seq<(String, Body)>, name: String, value: Body)
    ensures
        body_members_view(members.push((name, value))) == body_members_view(members).insert(
            name@,
            value.view(),
        ),
{
    assert(members.push((name, value)).drop_last() =~= members);
}

/// Adds a member to those of an object.
fn add_member(members: &mut Vec<(String, Body)>, name: &str, value: Body)
    ensures
        body_members_view(final(members)@) == body_members_view(old(members)@).insert(
            name@,
            value.view(),
        ),
{
    let name = name.to_string();
    proof {
        lemma_one_more_member(members@, name, value);
    }
    members.push((name, value));
}

fn single(name: &str, value: Body) -> (r: Body)
    ensures
        r.view() == one_member(name@, value.view()),
{
    let mut members: Vec<(String, Body)> = Vec::new();
    add_member(&mut members, name, value);
    Body::Object(members)
}

fn list_texts(values: Vec<String>) -> (r: Body)
    ensures
        r.view() == text_list(texts(values@)),
{
    let mut items: Vec<Body> = Vec::new();
    let ghost as_texts = |text: Seq<char>| JsonView::Text(text);
    let mut i: usize = 0;
    while i < values.len()
        invariant
            i <= values@.len(),
            as_texts == (|text: Seq<char>| JsonView::Text(text)),
            body_items_view(items@) == texts(values@).take(i as int).map_values(as_texts),
        decreases values@.len() - i,
    {
        let ghost before = items@;
        items.push(Body::Text(values[i].clone()));
        proof {
            assert(items@.drop_last() =~= before);
            let all = texts(values@);
            assert(all.take(i + 1) =~= all.take(i as int).push(all[i as int]));
            assert(items@.last().view() == JsonView::Text(values@[i as int]@));
            assert(body_items_view(items@) == body_items_view(before).push(
                as_texts(all[i as int]),
            ));
            assert(body_items_view(items@) =~= all.take(i + 1).map_values(as_texts));
        }
        i += 1;
    }
    assert(texts(values@).take(i as int) =~= texts(values@));
    Body::List(items)
}

/// The condition that a field has one of some values.
pub fn terms(field: &str, values: Vec<String>) -> (r: Body)
    ensures
        r.view() == terms_clause(field@, texts(values@)),
{
    single("terms", single(field, list_texts(values)))
}

/// The condition that a field has a value.
pub fn term(field: &str, value: &str) -> (r: Body)
    ensures
        r.view() == terms_clause(field@, seq![value@]),
{
    let mut values: Vec<String> = Vec::new();
    values.push(value.to_string());
    assert(texts(values@) =~= seq![value@]);
    terms(field, values)
}

/// A query of the catalog's search.
pub fn query(size: u64, must: Vec<Body>, filter: Option<Vec<Body>>) -> (r: Body)
    ensures
        r.view() == search_query(
            size as nat,
            body_items_view(must@),
            match filter {
                Some(clauses) => Some(body_items_view(clauses@)),
                None => None,
            },
        ),
{
    let mut conditions: Vec<(String, Body)> = Vec::new();
    add_member(&mut conditions, "must", Body::List(must));
    match filter {
        Some(clauses) => {
            add_member(&mut conditions, "filter", Body::List(clauses));
        },
        None => {},
    }
    let mut members: Vec<(String, Body)> = Vec::new();
    add_member(&mut members, "from", Body::Count(0));
    add_member(&mut members, "size", Body::Count(size));
    add_member(&mut members, "query", single("bool", Body::Object(conditions)));
    Body::Object(members)
}

/// What a search found is the sources of all its hits, however many they are, in their order: a hit
/// gives its `sourceAsMap` where it has that member, and else nothing.
pub proof fn every_hit_gives_its_source(a: Seq<JsonView>, b: Seq<JsonView>, hit: JsonView)
    ensures
        sources(Seq::<JsonView>::empty()) == Seq::<JsonView>::empty(),
        sources(seq![hit]) == if hit is Object && hit->Object_0.dom().contains("sourceAsMap"@) {
            seq![hit->Object_0["sourceAsMap"@]]
        } else {
            Seq::<JsonView>::empty()
        },
        sources(a + b) == sources(a) + sources(b),
    decreases b.len(),
{
    reveal_with_fuel(sources, 2);
    assert(seq![hit].drop_last() =~= Seq::<JsonView>::empty());
    assert(seq![hit].last() == hit);
    assert(sources(seq![hit]) =~= if hit is Object && hit->Object_0.dom().contains("sourceAsMap"@) {
        seq![hit->Object_0["sourceAsMap"@]]
    } else {
        Seq::<JsonView>::empty()
    });
    if b.len() == 0 {
        assert(a + b =~= a);
        assert(sources(a) + sources(b) =~= sources(a));
    } else {
        every_hit_gives_its_source(a, b.drop_last(), hit);
        assert((a + b).drop_last() =~= a + b.drop_last());
        assert((a + b).last() == b.last());
        assert(sources(a + b) =~= sources(a) + sources(b));
    }
}

/// Where every hit has a source, a search finds as many sources as there are hits, each at its
/// place.
pub proof fn as_many_sources_as_hits(hits: Seq<JsonView>)
    requires
        forall|i: int|
            0 <= i < hits.len() ==> (#[trigger] hits[i]) is Object
                && hits[i]->Object_0.dom().contains("sourceAsMap"@),
    ensures
        sources(hits).len() == hits.len(),
        forall|i: int|
            0 <= i < hits.len() ==> #[trigger] sources(hits)[i]
                == hits[i]->Object_0["sourceAsMap"@],
    decreases hits.len(),
{
    if hits.len() > 0 {
        let shorter = hits.drop_last();
        assert forall|i: int| 0 <= i < shorter.len() implies (#[trigger] shorter[i]) is Object
            && shorter[i]->Object_0.dom().contains("sourceAsMap"@) by {
            assert(shorter[i] == hits[i]);
        }
        as_many_sources_as_hits(shorter);
        assert(hits[hits.len() - 1] == hits.last());
        assert forall|i: int| 0 <= i < hits.len() implies #[trigger] sources(hits)[i]
            == hits[i]->Object_0["sourceAsMap"@] by {
            if i < shorter.len() {
                assert(sources(shorter)[i] == shorter[i]->Object_0["sourceAsMap"@]);
            }
        }
    }
}

/// The hits of an answer stand in the list `hits` of its member `hits`. Where there is no such list,
/// nothing was found.
pub proof fn hits_are_listed_under_hits(answer: JsonView)
    ensures
        ({
            let listed = answer is Object && answer->Object_0.dom().contains("hits"@)
                && answer->Object_0["hits"@] is Object
                && answer->Object_0["hits"@]->Object_0.dom().contains("hits"@)
                && answer->Object_0["hits"@]->Object_0["hits"@] is Array;
            if listed {
                found(answer) == sources(answer->Object_0["hits"@]->Object_0["hits"@]->Array_0)
            } else {
                found(answer) == Seq::<JsonView>::empty()
            }
        }),
{
}

/// A condition is an object `terms` whose one member, the field, lists the values as texts.
pub proof fn a_condition_lists_its_values(field: Seq<char>, values: Seq<Seq<char>>)
    ensures
        terms_clause(field, values) == JsonView::Object(
            map![
                "terms"@ => JsonView::Object(
                    map![
                        field => JsonView::Array(
                            Seq::new(values.len(), |i: int| JsonView::Text(values[i])),
                        ),
                    ],
                ),
            ],
        ),
{
    assert(values.map_values(|text: Seq<char>| JsonView::Text(text)) =~= Seq::new(
        values.len(),
        |i: int| JsonView::Text(values[i]),
    ));
}

/// A query asks from the first source on for as many as its size says. Its conditions stand under
/// `bool`: those of `must`, and those of `filter` where there are some.
pub proof fn a_query_holds_its_conditions(
    size: nat,
    must: Seq<JsonView>,
    filter: Seq<JsonView>,
)
    ensures
        search_query(size, must, None) == JsonView::Object(
            map![
                "from"@ => JsonView::Number("0"@),
                "size"@ => JsonView::Number(decimal(size)),
                "query"@ => JsonView::Object(
                    map!["bool"@ => JsonView::Object(map!["must"@ => JsonView::Array(must)])],
                ),
            ],
        ),
        search_query(size, must, Some(filter)) == JsonView::Object(
            map![
                "from"@ => JsonView::Number("0"@),
                "size"@ => JsonView::Number(decimal(size)),
                "query"@ => JsonView::Object(
                    map![
                        "bool"@ => JsonView::Object(
                            map![
                                "must"@ => JsonView::Array(must),
                                "filter"@ => JsonView::Array(filter),
                            ],
                        ),
                    ],
                ),
            ],
        ),
{
    reveal_strlit("0");
    assert(decimal(0) =~= "0"@);
}

} // verus!
