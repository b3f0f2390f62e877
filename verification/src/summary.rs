//! The governed summary of a schema asset.
//!
//! A survey of the catalog finds the asset, its columns, the links from the columns to Business
//! Terms, and the terms. From them the header fields of the summary follow.

use crate::config::Config;
use crate::fields::Fields;
use crate::json::{items_view, member_is_true, member_text, Json, JsonView};
use crate::number::{decimal, decimal_text};
use crate::ordered::{ascending_distinct, sort_distinct, OrderedMap};
use crate::text::{
    contains_item, contains_text, join, joined, keep_non_empty, lowercase, non_empty, occurs_in,
    split, split_on, texts, to_lowercase, trim, trimmed,
};
use vstd::prelude::*;
use vstd::string::*;

verus! {

/// The attribute of a term that is a critical data element.
pub const ATTR_ISCDE: &'static str = "com.infa.ccgf.models.governance.isCDE";

/// The attribute with the security level of a term.
pub const ATTR_SECURITY_CLASS: &'static str = "com.infa.ccgf.models.governance.securityClassification";

/// A column of the asset.
#[derive(Debug)]
pub struct Column {
    pub id: String,
    pub name: String,
}

/// A Business Term that describes a column.
#[derive(Debug)]
pub struct Link {
    pub term: String,
    pub column: String,
}

/// The ids and names of some columns.
pub open spec fn column_pairs(columns: Seq<Column>) -> Seq<(Seq<char>, Seq<char>)> {
    columns.map_values(|c: Column| (c.id@, c.name@))
}

/// The term ids and column names of some links.
pub open spec fn link_pairs(links: Seq<Link>) -> Seq<(Seq<char>, Seq<char>)> {
    links.map_values(|l: Link| (l.term@, l.column@))
}

/// The id and name of a column; `None` where a source lacks one of them.
pub open spec fn column(source: JsonView) -> Option<(Seq<char>, Seq<char>)> {
    match (member_text(source, "core.identity"@), member_text(source, "core.name"@)) {
        (Some(id), Some(name)) => Some((id, name)),
        _ => None,
    }
}

/// The columns among some sources, in order.
pub open spec fn columns(sources: Seq<JsonView>) -> Seq<(Seq<char>, Seq<char>)>
    decreases sources.len(),
{
    if sources.len() == 0 {
        Seq::empty()
    } else {
        let before = columns(sources.drop_last());
        match column(sources.last()) {
            Some(pair) => before.push(pair),
            None => before,
        }
    }
}

/// The name of the column with an id. Where several columns have the id, the last one counts.
pub open spec fn column_name(
    columns: Seq<(Seq<char>, Seq<char>)>,
    id: Seq<char>,
) -> Option<Seq<char>>
    decreases columns.len(),
{
    if columns.len() == 0 {
        None
    } else if columns.last().0 == id {
        Some(columns.last().1)
    } else {
        column_name(columns.drop_last(), id)
    }
}

/// The term and the column that a relationship links; `None` where it does not start at a column.
pub open spec fn link(
    source: JsonView,
    columns: Seq<(Seq<char>, Seq<char>)>,
) -> Option<(Seq<char>, Seq<char>)> {
    match (
        member_text(source, "core.sourceIdentity"@),
        member_text(source, "core.targetIdentity"@),
    ) {
        (Some(from), Some(to)) => match column_name(columns, from) {
            Some(name) => Some((to, name)),
            None => None,
        },
        _ => None,
    }
}

/// The links among some relationships, in order.
pub open spec fn links(
    sources: Seq<JsonView>,
    columns: Seq<(Seq<char>, Seq<char>)>,
) -> Seq<(Seq<char>, Seq<char>)>
    decreases sources.len(),
{
    if sources.len() == 0 {
        Seq::empty()
    } else {
        let before = links(sources.drop_last(), columns);
        match link(sources.last(), columns) {
            Some(pair) => before.push(pair),
            None => before,
        }
    }
}

/// The columns that a term describes, in the order of the links.
pub open spec fn linked_columns(
    links: Seq<(Seq<char>, Seq<char>)>,
    term: Seq<char>,
) -> Seq<Seq<char>>
    decreases links.len(),
{
    if links.len() == 0 {
        Seq::empty()
    } else {
        let before = linked_columns(links.drop_last(), term);
        if links.last().0 == term {
            before.push(links.last().1)
        } else {
            before
        }
    }
}

/// The first parts of some pairs.
pub open spec fn firsts(pairs: Seq<(Seq<char>, Seq<char>)>) -> Seq<Seq<char>> {
    pairs.map_values(|p: (Seq<char>, Seq<char>)| p.0)
}

/// The second parts of some pairs.
pub open spec fn seconds(pairs: Seq<(Seq<char>, Seq<char>)>) -> Seq<Seq<char>> {
    pairs.map_values(|p: (Seq<char>, Seq<char>)| p.1)
}

/// Picks the columns out of some sources.
pub fn columns_of(sources: &Vec<Json>) -> (r: Vec<Column>)
    ensures
        column_pairs(r@) == columns(items_view(sources@)),
{
    let mut out: Vec<Column> = Vec::new();
    let mut i: usize = 0;
    assert(column_pairs(out@) =~= columns(items_view(sources@.take(0))));
    while i < sources.len()
        invariant
            i <= sources@.len(),
            column_pairs(out@) == columns(items_view(sources@.take(i as int))),
        decreases sources@.len() - i,
    {
        let source = &sources[i];
        proof {
            lemma_one_more_item(sources@, i as int);
        }
        let ghost before = out@;
        match (source.text_at("core.identity"), source.text_at("core.name")) {
            (Some(id), Some(name)) => {
                out.push(Column { id, name });
                assert(column_pairs(out@) =~= column_pairs(before).push((id@, name@)));
            },
            _ => {},
        }
        i += 1;
    }
    assert(sources@.take(i as int) =~= sources@);
    out
}

proof fn lemma_one_more_item(items: Seq<Json>, i: int)
    requires
        0 <= i < items.len(),
    ensures
        items_view(items.take(i + 1)).len() > 0,
        items_view(items.take(i + 1)).drop_last() == items_view(items.take(i)),
        items_view(items.take(i + 1)).last() == items[i].view(),
{
    assert(items.take(i + 1).drop_last() =~= items.take(i));
    assert(items.take(i + 1).last() == items[i]);
    assert(items_view(items.take(i + 1)).drop_last() =~= items_view(items.take(i)));
}

/// A map from column ids to names gives every id the name of its column.
spec fn names_columns(
    names: Map<Seq<char>, String>,
    columns: Seq<(Seq<char>, Seq<char>)>,
) -> bool {
    forall|id: Seq<char>|
        #![trigger names.dom().contains(id)]
        #![trigger column_name(columns, id)]
        column_name(columns, id) == if names.dom().contains(id) {
            Some(names[id]@)
        } else {
            None
        }
}

/// The names of the columns, by id.
fn names_by_id(columns: &Vec<Column>) -> (r: OrderedMap<String>)
    ensures
        names_columns(r@, column_pairs(columns@)),
{
    let mut out: OrderedMap<String> = OrderedMap::new();
    let ghost all = column_pairs(columns@);
    let mut i: usize = 0;
    while i < columns.len()
        invariant
            i <= columns@.len(),
            all == column_pairs(columns@),
            names_columns(out@, all.take(i as int)),
        decreases columns@.len() - i,
    {
        let ghost before = out@;
        out.insert(columns[i].id.clone(), columns[i].name.clone());
        proof {
            let seen = all.take(i + 1);
            assert(seen.drop_last() =~= all.take(i as int));
            assert(seen.last() == all[i as int]);
            assert forall|id: Seq<char>|
                #![trigger column_name(seen, id)]
                column_name(seen, id) == if out@.dom().contains(id) {
                    Some(out@[id]@)
                } else {
                    None
                } by {
                assert(before.dom().contains(id) ==> column_name(all.take(i as int), id) is Some);
            }
        }
        i += 1;
    }
    assert(all.take(i as int) =~= all);
    out
}

/// Picks the links out of some relationships.
pub fn links_of(sources: &Vec<Json>, columns: &Vec<Column>) -> (r: Vec<Link>)
    ensures
        link_pairs(r@) == links(items_view(sources@), column_pairs(columns@)),
{
    let names = names_by_id(columns);
    let ghost pairs = column_pairs(columns@);
    let mut out: Vec<Link> = Vec::new();
    let mut i: usize = 0;
    assert(link_pairs(out@) =~= links(items_view(sources@.take(0)), pairs));
    while i < sources.len()
        invariant
            i <= sources@.len(),
            pairs == column_pairs(columns@),
            names_columns(names@, pairs),
            link_pairs(out@) == links(items_view(sources@.take(i as int)), pairs),
        decreases sources@.len() - i,
    {
        let source = &sources[i];
        proof {
            lemma_one_more_item(sources@, i as int);
        }
        let ghost before = out@;
        match (source.text_at("core.sourceIdentity"), source.text_at("core.targetIdentity")) {
            (Some(from), Some(to)) => {
                match names.get(from.as_str()) {
                    Some(name) => {
                        let column = name.clone();
                        out.push(Link { term: to, column });
                        assert(link_pairs(out@) =~= link_pairs(before).push((to@, column@)));
                    },
                    None => {},
                }
            },
            _ => {},
        }
        i += 1;
    }
    assert(sources@.take(i as int) =~= sources@);
    out
}

/// The columns of each linked term.
fn columns_by_term(links: &Vec<Link>) -> (r: OrderedMap<Vec<String>>)
    ensures
        forall|term: Seq<char>|
            if #[trigger] r@.dom().contains(term) {
                texts(r@[term]@) == linked_columns(link_pairs(links@), term)
            } else {
                linked_columns(link_pairs(links@), term).len() == 0
            },
{
    let mut out: OrderedMap<Vec<String>> = OrderedMap::new();
    let ghost all = link_pairs(links@);
    let mut i: usize = 0;
    while i < links.len()
        invariant
            i <= links@.len(),
            all == link_pairs(links@),
            forall|term: Seq<char>|
                if #[trigger] out@.dom().contains(term) {
                    texts(out@[term]@) == linked_columns(all.take(i as int), term)
                } else {
                    linked_columns(all.take(i as int), term).len() == 0
                },
        decreases links@.len() - i,
    {
        let ghost before = out@;
        out.append_to(links[i].term.clone(), links[i].column.clone());
        proof {
            let seen = all.take(i + 1);
            let key = links@[i as int].term@;
            assert(seen.drop_last() =~= all.take(i as int));
            assert(seen.last() == all[i as int]);
            assert forall|term: Seq<char>|
                if #[trigger] out@.dom().contains(term) {
                    texts(out@[term]@) == linked_columns(seen, term)
                } else {
                    linked_columns(seen, term).len() == 0
                } by {
                if term == key {
                    if before.dom().contains(key) {
                    } else {
                        assert(linked_columns(all.take(i as int), key) =~= Seq::empty());
                    }
                } else {
                    if before.dom().contains(term) {
                        assert(out@[term] == before[term]);
                    }
                }
            }
        }
        i += 1;
    }
    assert(all.take(i as int) =~= all);
    out
}

/// What marks a term sensitive: words of its description, and security levels. All are in lower
/// case.
#[derive(Debug)]
pub struct Sensitivity {
    pub marker: String,
    pub levels: Vec<String>,
}

/// The configured words that mark a description, in lower case.
pub open spec fn marker_text(configured: Option<String>) -> Seq<char> {
    lowercase(
        match configured {
            Some(text) => text@,
            None => "confidential"@,
        },
    )
}

/// The configured security levels: the items between commas, trimmed and in lower case, without
/// the empty ones.
pub open spec fn level_texts(configured: Option<String>) -> Seq<Seq<char>> {
    let list = match configured {
        Some(text) => text@,
        None => "confidential,restricted"@,
    };
    non_empty(split_on(list, ',').map_values(|item: Seq<char>| lowercase(trimmed(item))))
}

impl Sensitivity {
    /// What the configuration marks as sensitive.
    pub fn from_config(config: &Config) -> (r: Self)
        ensures
            r.marker@ == marker_text(config.sensitive_marker),
            texts(r.levels@) == level_texts(config.sensitive_levels),
    {
        let marker = match &config.sensitive_marker {
            Some(text) => to_lowercase(text.as_str()),
            None => to_lowercase("confidential"),
        };
        let items = match &config.sensitive_levels {
            Some(text) => split(text.as_str(), ','),
            None => split("confidential,restricted", ','),
        };
        let ghost all = texts(items@);
        let ghost normal = |item: Seq<char>| lowercase(trimmed(item));
        let mut levels: Vec<String> = Vec::new();
        let mut i: usize = 0;
        while i < items.len()
            invariant
                i <= items@.len(),
                all == texts(items@),
                normal == (|item: Seq<char>| lowercase(trimmed(item))),
                texts(levels@) == all.take(i as int).map_values(normal),
            decreases items@.len() - i,
        {
            let ghost before = levels@;
            let item = trim(items[i].as_str());
            let level = to_lowercase(item.as_str());
            levels.push(level);
            proof {
                assert(texts(levels@) =~= texts(before).push(normal(all[i as int])));
                assert(all.take(i + 1) =~= all.take(i as int).push(all[i as int]));
                assert(texts(levels@) =~= all.take(i + 1).map_values(normal));
            }
            i += 1;
        }
        assert(all.take(i as int) =~= all);
        Sensitivity { marker, levels: keep_non_empty(levels) }
    }
}

/// A security level decides, where there is one; else the description does. All texts are in lower
/// case.
pub open spec fn marked_sensitive(
    level: Option<Seq<char>>,
    description: Seq<char>,
    marker: Seq<char>,
    levels: Seq<Seq<char>>,
) -> bool {
    match level {
        Some(level) => levels.contains(level),
        None => occurs_in(description, marker),
    }
}

/// Whether a term is sensitive, from its security level, where it has one, and its description. All
/// texts are in lower case.
pub fn is_sensitive(
    level: Option<&str>,
    description: &str,
    sensitivity: &Sensitivity,
) -> (r: bool)
    ensures
        r == marked_sensitive(
            match level {
                Some(level) => Some(level@),
                None => None,
            },
            description@,
            sensitivity.marker@,
            texts(sensitivity.levels@),
        ),
{
    match level {
        Some(level) => contains_item(&sensitivity.levels, level),
        None => contains_text(description, sensitivity.marker.as_str()),
    }
}

/// The text of a member, or the empty text.
pub open spec fn text_or_empty(source: JsonView, name: Seq<char>) -> Seq<char> {
    match member_text(source, name) {
        Some(text) => text,
        None => Seq::empty(),
    }
}

/// The security level of a term: trimmed, and in lower case. An absent or blank level is none.
pub open spec fn security_level(term: JsonView) -> Option<Seq<char>> {
    let level = trimmed(text_or_empty(term, ATTR_SECURITY_CLASS@));
    if level.len() == 0 {
        None
    } else {
        Some(lowercase(level))
    }
}

/// A term is sensitive by its security level or, where it has none, by its description.
pub open spec fn sensitive_term(
    term: JsonView,
    marker: Seq<char>,
    levels: Seq<Seq<char>>,
) -> bool {
    marked_sensitive(
        security_level(term),
        lowercase(text_or_empty(term, "core.description"@)),
        marker,
        levels,
    )
}

/// A term that names a critical data element.
pub open spec fn required_term(term: JsonView) -> bool {
    member_is_true(term, ATTR_ISCDE@)
}

/// The columns that the wanted terms describe, term by term. A term without an id describes none.
pub open spec fn described_columns(
    terms: Seq<JsonView>,
    links: Seq<(Seq<char>, Seq<char>)>,
    wanted: spec_fn(JsonView) -> bool,
) -> Seq<Seq<char>>
    decreases terms.len(),
{
    if terms.len() == 0 {
        Seq::empty()
    } else {
        let before = described_columns(terms.drop_last(), links, wanted);
        match member_text(terms.last(), "core.identity"@) {
            Some(id) => if wanted(terms.last()) {
                before + linked_columns(links, id)
            } else {
                before
            },
            None => before,
        }
    }
}

/// The columns of required terms.
pub open spec fn required_columns(
    terms: Seq<JsonView>,
    links: Seq<(Seq<char>, Seq<char>)>,
) -> Seq<Seq<char>> {
    described_columns(terms, links, |term: JsonView| required_term(term))
}

/// The columns of sensitive terms.
pub open spec fn sensitive_columns(
    terms: Seq<JsonView>,
    links: Seq<(Seq<char>, Seq<char>)>,
    marker: Seq<char>,
    levels: Seq<Seq<char>>,
) -> Seq<Seq<char>> {
    described_columns(terms, links, |term: JsonView| sensitive_term(term, marker, levels))
}

/// Adds copies of the items to the end of a list.
fn extend_with(list: &mut Vec<String>, items: &Vec<String>)
    ensures
        texts(final(list)@) == texts(old(list)@) + texts(items@),
{
    let ghost start = list@;
    let mut i: usize = 0;
    assert(texts(list@) =~= texts(start) + texts(items@).take(0));
    while i < items.len()
        invariant
            i <= items@.len(),
            texts(list@) == texts(start) + texts(items@).take(i as int),
        decreases items@.len() - i,
    {
        let ghost before = list@;
        let item = items[i].clone();
        list.push(item);
        proof {
            let all = texts(items@);
            assert(texts(list@) =~= texts(before).push(item@));
            assert(all.take(i + 1) =~= all.take(i as int).push(all[i as int]));
            assert(texts(list@) =~= texts(start) + all.take(i + 1));
        }
        i += 1;
    }
    assert(texts(items@).take(i as int) =~= texts(items@));
}

/// The columns that the terms mark as required and as sensitive.
pub fn marked_columns(
    found: &Vec<Json>,
    links: &Vec<Link>,
    sensitivity: &Sensitivity,
) -> (r: (Vec<String>, Vec<String>))
    ensures
        texts(r.0@) == required_columns(items_view(found@), link_pairs(links@)),
        texts(r.1@) == sensitive_columns(
            items_view(found@),
            link_pairs(links@),
            sensitivity.marker@,
            texts(sensitivity.levels@),
        ),
{
    let by_term = columns_by_term(links);
    let ghost pairs = link_pairs(links@);
    let ghost marker = sensitivity.marker@;
    let ghost levels = texts(sensitivity.levels@);
    let ghost is_required = |term: JsonView| required_term(term);
    let ghost is_marked = |term: JsonView| sensitive_term(term, marker, levels);
    let none: Vec<String> = Vec::new();
    let mut required: Vec<String> = Vec::new();
    let mut sensitive: Vec<String> = Vec::new();
    let mut i: usize = 0;
    assert(texts(none@) =~= Seq::empty());
    while i < found.len()
        invariant
            i <= found@.len(),
            texts(none@) == Seq::<Seq<char>>::empty(),
            marker == sensitivity.marker@,
            levels == texts(sensitivity.levels@),
            is_required == (|term: JsonView| required_term(term)),
            is_marked == (|term: JsonView| sensitive_term(term, marker, levels)),
            forall|term: Seq<char>|
                if #[trigger] by_term@.dom().contains(term) {
                    texts(by_term@[term]@) == linked_columns(pairs, term)
                } else {
                    linked_columns(pairs, term).len() == 0
                },
            texts(required@) == described_columns(
                items_view(found@.take(i as int)),
                pairs,
                is_required,
            ),
            texts(sensitive@) == described_columns(
                items_view(found@.take(i as int)),
                pairs,
                is_marked,
            ),
        decreases found@.len() - i,
    {
        let source = &found[i];
        proof {
            lemma_one_more_item(found@, i as int);
        }
        match source.text_at("core.identity") {
            Some(id) => {
                let described = match by_term.get(id.as_str()) {
                    Some(list) => list,
                    None => {
                        assert(linked_columns(pairs, id@) =~= Seq::empty());
                        &none
                    },
                };
                assert(texts(described@) == linked_columns(pairs, id@));
                if source.is_true_at(ATTR_ISCDE) {
                    extend_with(&mut required, described);
                }
                let level_text = match source.text_at(ATTR_SECURITY_CLASS) {
                    Some(text) => text,
                    None => String::new(),
                };
                let description_text = match source.text_at("core.description") {
                    Some(text) => text,
                    None => String::new(),
                };
                assert(level_text@ =~= text_or_empty(source.view(), ATTR_SECURITY_CLASS@));
                assert(description_text@ =~= text_or_empty(source.view(), "core.description"@));
                let bare_level = trim(level_text.as_str());
                let description = to_lowercase(description_text.as_str());
                let marked: bool = if bare_level.as_str().is_empty() {
                    is_sensitive(None, description.as_str(), sensitivity)
                } else {
                    let level = to_lowercase(bare_level.as_str());
                    is_sensitive(Some(level.as_str()), description.as_str(), sensitivity)
                };
                if marked {
                    extend_with(&mut sensitive, described);
                }
            },
            None => {},
        }
        i += 1;
    }
    assert(found@.take(i as int) =~= found@);
    (required, sensitive)
}

/// Fields with one more, where it has a value.
pub open spec fn with_text(
    fields: Map<Seq<char>, Seq<char>>,
    name: Seq<char>,
    value: Option<Seq<char>>,
) -> Map<Seq<char>, Seq<char>> {
    match value {
        Some(text) => fields.insert(name, text),
        None => fields,
    }
}

/// A list as the value of a field; `None` where it has no item.
pub open spec fn list_text(items: Seq<Seq<char>>) -> Option<Seq<char>> {
    if items.len() == 0 {
        None
    } else {
        Some(joined(items, ","@))
    }
}

/// The header fields of a summary.
pub open spec fn summary_fields(
    file: JsonView,
    columns: Seq<(Seq<char>, Seq<char>)>,
    required: Seq<Seq<char>>,
    sensitive: Seq<Seq<char>>,
) -> Map<Seq<char>, Seq<char>> {
    let named = with_text(Map::empty(), "x-dp-name"@, member_text(file, "core.name"@));
    let identified = with_text(
        named,
        "x-dp-external-id"@,
        member_text(file, "core.externalId"@),
    );
    let sourced = with_text(identified, "x-dp-source"@, member_text(file, "core.origin"@));
    let counted = sourced.insert("x-dp-field-count"@, decimal(columns.len()));
    let listed = with_text(counted, "x-dp-fields"@, list_text(seconds(columns)));
    let flagged = with_text(listed, "x-dp-required"@, list_text(ascending_distinct(required)));
    with_text(flagged, "x-dp-sensitive"@, list_text(ascending_distinct(sensitive)))
}

/// Adds a field where it has a value.
fn add_text(fields: &mut Fields, name: &str, value: Option<String>)
    ensures
        final(fields)@ == with_text(
            old(fields)@,
            name@,
            match value {
                Some(text) => Some(text@),
                None => None,
            },
        ),
{
    match value {
        Some(text) => {
            fields.insert(name.to_string(), text);
        },
        None => {},
    }
}

/// Adds a field with a list, where it has an item.
fn add_list(fields: &mut Fields, name: &str, items: &Vec<String>)
    ensures
        final(fields)@ == with_text(old(fields)@, name@, list_text(texts(items@))),
{
    if items.len() > 0 {
        fields.insert(name.to_string(), join(items, ","));
    }
}

/// Puts the header fields of a summary together.
pub fn stamp(
    file: &Json,
    columns: &Vec<Column>,
    required: &Vec<String>,
    sensitive: &Vec<String>,
) -> (r: Fields)
    ensures
        r@ == summary_fields(
            file.view(),
            column_pairs(columns@),
            texts(required@),
            texts(sensitive@),
        ),
{
    let mut names: Vec<String> = Vec::new();
    let mut i: usize = 0;
    while i < columns.len()
        invariant
            i <= columns@.len(),
            texts(names@) == seconds(column_pairs(columns@)).take(i as int),
        decreases columns@.len() - i,
    {
        let ghost before = names@;
        let name = columns[i].name.clone();
        names.push(name);
        proof {
            let all = seconds(column_pairs(columns@));
            assert(texts(names@) =~= texts(before).push(name@));
            assert(all.take(i + 1) =~= all.take(i as int).push(all[i as int]));
        }
        i += 1;
    }
    assert(seconds(column_pairs(columns@)).take(i as int) =~= seconds(column_pairs(columns@)));
    let required = sort_distinct(required);
    let sensitive = sort_distinct(sensitive);
    let mut fields = Fields::new();
    add_text(&mut fields, "x-dp-name", file.text_at("core.name"));
    add_text(&mut fields, "x-dp-external-id", file.text_at("core.externalId"));
    add_text(&mut fields, "x-dp-source", file.text_at("core.origin"));
    fields.insert("x-dp-field-count".to_string(), decimal_text(names.len() as u128));
    add_list(&mut fields, "x-dp-fields", &names);
    add_list(&mut fields, "x-dp-required", &required);
    add_list(&mut fields, "x-dp-sensitive", &sensitive);
    fields
}

/// Where a term has a security level, the level alone decides, whatever its description says; the
/// description of a term whose level is absent or blank decides.
pub proof fn the_description_decides_where_there_is_no_level(
    term: JsonView,
    marker: Seq<char>,
    levels: Seq<Seq<char>>,
)
    ensures
        match member_text(term, ATTR_SECURITY_CLASS@) {
            Some(level) => if trimmed(level).len() > 0 {
                sensitive_term(term, marker, levels) == levels.contains(lowercase(trimmed(level)))
            } else {
                sensitive_term(term, marker, levels) == occurs_in(
                    lowercase(text_or_empty(term, "core.description"@)),
                    marker,
                )
            },
            None => sensitive_term(term, marker, levels) == occurs_in(
                lowercase(text_or_empty(term, "core.description"@)),
                marker,
            ),
        },
{
}

/// Whether a term is sensitive does not depend on the case of its security level, of its
/// description or of the configured marker, nor on white space around the level.
pub proof fn sensitivity_ignores_case(
    term: JsonView,
    other: JsonView,
    marker: Option<String>,
    other_marker: Option<String>,
    levels: Seq<Seq<char>>,
)
    requires
        security_level(term) == security_level(other),
        lowercase(text_or_empty(term, "core.description"@)) == lowercase(
            text_or_empty(other, "core.description"@),
        ),
        marker is Some,
        other_marker is Some,
        lowercase(marker->0@) == lowercase(other_marker->0@),
    ensures
        sensitive_term(term, marker_text(marker), levels) == sensitive_term(
            other,
            marker_text(other_marker),
            levels,
        ),
{
}

proof fn lemma_column_name_is_a_column(columns: Seq<(Seq<char>, Seq<char>)>, id: Seq<char>)
    ensures
        column_name(columns, id) matches Some(name) ==> seconds(columns).contains(name),
    decreases columns.len(),
{
    if columns.len() > 0 {
        if columns.last().0 == id {
            assert(seconds(columns)[columns.len() - 1] == columns.last().1);
        } else {
            lemma_column_name_is_a_column(columns.drop_last(), id);
            match column_name(columns, id) {
                Some(name) => {
                    let shorter = seconds(columns.drop_last());
                    let i = choose|i: int| 0 <= i < shorter.len() && shorter[i] == name;
                    assert(seconds(columns)[i] == name);
                },
                None => {},
            }
        }
    }
}

proof fn lemma_links_name_columns(
    sources: Seq<JsonView>,
    columns: Seq<(Seq<char>, Seq<char>)>,
    i: int,
)
    requires
        0 <= i < links(sources, columns).len(),
    ensures
        seconds(columns).contains(links(sources, columns)[i].1),
    decreases sources.len(),
{
    if sources.len() > 0 {
        let before = links(sources.drop_last(), columns);
        if i < before.len() {
            lemma_links_name_columns(sources.drop_last(), columns, i);
        } else {
            match member_text(sources.last(), "core.sourceIdentity"@) {
                Some(from) => lemma_column_name_is_a_column(columns, from),
                None => {},
            }
        }
    }
}

proof fn lemma_linked_columns_are_linked(
    links: Seq<(Seq<char>, Seq<char>)>,
    term: Seq<char>,
    name: Seq<char>,
)
    requires
        linked_columns(links, term).contains(name),
    ensures
        seconds(links).contains(name),
    decreases links.len(),
{
    if links.len() > 0 {
        let before = linked_columns(links.drop_last(), term);
        let now = linked_columns(links, term);
        let i = choose|i: int| 0 <= i < now.len() && now[i] == name;
        if i < before.len() {
            assert(before[i] == name);
            lemma_linked_columns_are_linked(links.drop_last(), term, name);
            let shorter = seconds(links.drop_last());
            let j = choose|j: int| 0 <= j < shorter.len() && shorter[j] == name;
            assert(seconds(links)[j] == name);
        } else {
            assert(seconds(links)[links.len() - 1] == name);
        }
    }
}

proof fn lemma_described_columns_are_linked(
    terms: Seq<JsonView>,
    links: Seq<(Seq<char>, Seq<char>)>,
    wanted: spec_fn(JsonView) -> bool,
    name: Seq<char>,
)
    requires
        described_columns(terms, links, wanted).contains(name),
    ensures
        seconds(links).contains(name),
    decreases terms.len(),
{
    if terms.len() > 0 {
        let before = described_columns(terms.drop_last(), links, wanted);
        let now = described_columns(terms, links, wanted);
        let i = choose|i: int| 0 <= i < now.len() && now[i] == name;
        if i < before.len() {
            assert(before[i] == name);
            lemma_described_columns_are_linked(terms.drop_last(), links, wanted, name);
        } else {
            let id = member_text(terms.last(), "core.identity"@)->0;
            assert(linked_columns(links, id)[i - before.len()] == name);
            lemma_linked_columns_are_linked(links, id, name);
        }
    }
}

/// Whatever the catalog holds, every column that terms mark is one of the asset's columns.
pub proof fn marked_columns_are_columns_of_the_asset(
    terms: Seq<JsonView>,
    relations: Seq<JsonView>,
    columns: Seq<(Seq<char>, Seq<char>)>,
    wanted: spec_fn(JsonView) -> bool,
)
    ensures
        forall|name: Seq<char>|
            #[trigger] ascending_distinct(
                described_columns(terms, links(relations, columns), wanted),
            ).contains(name) ==> seconds(columns).contains(name),
{
    let linked = links(relations, columns);
    let marked = described_columns(terms, linked, wanted);
    crate::ordered::ascending_distinct_lists_the_members(marked);
    assert forall|name: Seq<char>| #[trigger] ascending_distinct(marked).contains(name) implies seconds(
        columns,
    ).contains(name) by {
        assert(ascending_distinct(marked).to_set().contains(name));
        assert(marked.to_set().contains(name));
        lemma_described_columns_are_linked(terms, linked, wanted, name);
        let i = choose|i: int| 0 <= i < seconds(linked).len() && seconds(linked)[i] == name;
        lemma_links_name_columns(relations, columns, i);
    }
}

/// The field has the value, or is missing where there is none.
pub open spec fn has_text(
    fields: Map<Seq<char>, Seq<char>>,
    name: Seq<char>,
    value: Option<Seq<char>>,
) -> bool {
    match value {
        Some(text) => fields.dom().contains(name) && fields[name] == text,
        None => !fields.dom().contains(name),
    }
}

/// What a summary says of an asset: its name, external id and origin, the number and the names of
/// its columns, and the required and the sensitive ones. It has no other field.
pub proof fn a_summary_describes_the_asset(
    file: JsonView,
    columns: Seq<(Seq<char>, Seq<char>)>,
    required: Seq<Seq<char>>,
    sensitive: Seq<Seq<char>>,
)
    ensures
        ({
            let fields = summary_fields(file, columns, required, sensitive);
            &&& has_text(fields, "x-dp-name"@, member_text(file, "core.name"@))
            &&& has_text(fields, "x-dp-external-id"@, member_text(file, "core.externalId"@))
            &&& has_text(fields, "x-dp-source"@, member_text(file, "core.origin"@))
            &&& has_text(fields, "x-dp-field-count"@, Some(decimal(columns.len())))
            &&& has_text(fields, "x-dp-fields"@, list_text(seconds(columns)))
            &&& has_text(fields, "x-dp-required"@, list_text(ascending_distinct(required)))
            &&& has_text(fields, "x-dp-sensitive"@, list_text(ascending_distinct(sensitive)))
            &&& forall|name: Seq<char>| #[trigger]
                fields.dom().contains(name) ==> name == "x-dp-name"@ || name
                    == "x-dp-external-id"@ || name == "x-dp-source"@ || name
                    == "x-dp-field-count"@ || name == "x-dp-fields"@ || name == "x-dp-required"@
                    || name == "x-dp-sensitive"@
        }),
{
    reveal_strlit("x-dp-name");
    reveal_strlit("x-dp-external-id");
    reveal_strlit("x-dp-source");
    reveal_strlit("x-dp-field-count");
    reveal_strlit("x-dp-fields");
    reveal_strlit("x-dp-required");
    reveal_strlit("x-dp-sensitive");
    assert("x-dp-external-id"@[5] == 'e' && "x-dp-field-count"@[5] == 'f');
    assert("x-dp-source"@[5] == 's' && "x-dp-fields"@[5] == 'f');
    assert("x-dp-external-id"@ != "x-dp-field-count"@);
    assert("x-dp-source"@ != "x-dp-fields"@);
    assert("x-dp-name"@.len() == 9 && "x-dp-required"@.len() == 13);
    assert("x-dp-source"@.len() == 11 && "x-dp-fields"@.len() == 11);
    assert("x-dp-external-id"@.len() == 16 && "x-dp-field-count"@.len() == 16);
    assert("x-dp-sensitive"@.len() == 14);
}

/// Pairs are taken apart one by one.
pub proof fn pairs_are_taken_apart_one_by_one(
    columns: Seq<Column>,
    links: Seq<Link>,
    pairs: Seq<(Seq<char>, Seq<char>)>,
)
    ensures
        column_pairs(columns).len() == columns.len(),
        forall|i: int|
            0 <= i < columns.len() ==> #[trigger] column_pairs(columns)[i] == (
                columns[i].id@,
                columns[i].name@,
            ),
        link_pairs(links).len() == links.len(),
        forall|i: int|
            0 <= i < links.len() ==> #[trigger] link_pairs(links)[i] == (
                links[i].term@,
                links[i].column@,
            ),
        firsts(pairs).len() == pairs.len(),
        forall|i: int| 0 <= i < pairs.len() ==> #[trigger] firsts(pairs)[i] == pairs[i].0,
        seconds(pairs).len() == pairs.len(),
        forall|i: int| 0 <= i < pairs.len() ==> #[trigger] seconds(pairs)[i] == pairs[i].1,
{
}

/// The columns of some sources are those of each, in order. A source is a column exactly where both
/// its `core.identity` and its `core.name` are texts.
pub proof fn every_source_may_be_a_column(a: Seq<JsonView>, b: Seq<JsonView>, source: JsonView)
    ensures
        columns(Seq::<JsonView>::empty()) == Seq::<(Seq<char>, Seq<char>)>::empty(),
        columns(seq![source]) == if member_text(source, "core.identity"@) is Some && member_text(
            source,
            "core.name"@,
        ) is Some {
            seq![
                (
                    member_text(source, "core.identity"@)->0,
                    member_text(source, "core.name"@)->0,
                ),
            ]
        } else {
            Seq::<(Seq<char>, Seq<char>)>::empty()
        },
        columns(a + b) == columns(a) + columns(b),
    decreases b.len(),
{
    reveal_with_fuel(columns, 2);
    assert(seq![source].drop_last() =~= Seq::<JsonView>::empty());
    assert(seq![source].last() == source);
    assert(columns(seq![source]) =~= if member_text(source, "core.identity"@) is Some
        && member_text(source, "core.name"@) is Some {
        seq![(member_text(source, "core.identity"@)->0, member_text(source, "core.name"@)->0)]
    } else {
        Seq::<(Seq<char>, Seq<char>)>::empty()
    });
    if b.len() == 0 {
        assert(a + b =~= a);
        assert(columns(a) + columns(b) =~= columns(a));
    } else {
        every_source_may_be_a_column(a, b.drop_last(), source);
        assert((a + b).drop_last() =~= a + b.drop_last());
        assert((a + b).last() == b.last());
        assert(columns(a + b) =~= columns(a) + columns(b));
    }
}

/// The name of an id is that of the last column with the id; an id that no column has is without
/// one.
pub proof fn the_last_column_with_an_id_names_it(
    columns: Seq<(Seq<char>, Seq<char>)>,
    id: Seq<char>,
)
    ensures
        column_name(columns, id) is None <==> forall|i: int|
            0 <= i < columns.len() ==> (#[trigger] columns[i]).0 != id,
        forall|i: int|
            #![trigger columns[i]]
            0 <= i < columns.len() && columns[i].0 == id && (forall|j: int|
                i < j < columns.len() ==> (#[trigger] columns[j]).0 != id) ==> column_name(
                columns,
                id,
            ) == Some(columns[i].1),
    decreases columns.len(),
{
    if columns.len() > 0 {
        let shorter = columns.drop_last();
        let top = columns.len() - 1;
        the_last_column_with_an_id_names_it(shorter, id);
        if columns[top].0 != id {
            if forall|i: int| 0 <= i < shorter.len() ==> (#[trigger] shorter[i]).0 != id {
                assert forall|i: int| 0 <= i < columns.len() implies (#[trigger] columns[i]).0
                    != id by {
                    if i < top {
                        assert(shorter[i] == columns[i]);
                    }
                }
            }
            if forall|i: int| 0 <= i < columns.len() ==> (#[trigger] columns[i]).0 != id {
                assert forall|i: int| 0 <= i < shorter.len() implies (#[trigger] shorter[i]).0
                    != id by {
                    assert(shorter[i] == columns[i]);
                }
            }
            assert forall|i: int|
                #![trigger columns[i]]
                0 <= i < columns.len() && columns[i].0 == id && (forall|j: int|
                    i < j < columns.len() ==> (#[trigger] columns[j]).0
                        != id) implies column_name(columns, id) == Some(columns[i].1) by {
                assert(shorter[i] == columns[i]);
                assert forall|j: int| i < j < shorter.len() implies (#[trigger] shorter[j]).0
                    != id by {
                    assert(shorter[j] == columns[j]);
                }
            }
        } else {
            assert forall|i: int|
                #![trigger columns[i]]
                0 <= i < columns.len() && columns[i].0 == id && (forall|j: int|
                    i < j < columns.len() ==> (#[trigger] columns[j]).0
                        != id) implies column_name(columns, id) == Some(columns[i].1) by {
                if i < top {
                    assert(columns[top].0 != id);
                }
            }
        }
    }
}

/// The links of some relationships are those of each, in order. A relationship is a link exactly
/// where it goes from the id of a column to something, and links that to the name of the column.
pub proof fn every_relationship_may_be_a_link(
    a: Seq<JsonView>,
    b: Seq<JsonView>,
    source: JsonView,
    columns: Seq<(Seq<char>, Seq<char>)>,
)
    ensures
        links(Seq::<JsonView>::empty(), columns) == Seq::<(Seq<char>, Seq<char>)>::empty(),
        links(seq![source], columns) == (match (
            member_text(source, "core.sourceIdentity"@),
            member_text(source, "core.targetIdentity"@),
        ) {
            (Some(from), Some(to)) => match column_name(columns, from) {
                Some(name) => seq![(to, name)],
                None => Seq::<(Seq<char>, Seq<char>)>::empty(),
            },
            _ => Seq::<(Seq<char>, Seq<char>)>::empty(),
        }),
        links(a + b, columns) == links(a, columns) + links(b, columns),
    decreases b.len(),
{
    reveal_with_fuel(links, 2);
    assert(seq![source].drop_last() =~= Seq::<JsonView>::empty());
    assert(seq![source].last() == source);
    assert(links(seq![source], columns) =~= match (
        member_text(source, "core.sourceIdentity"@),
        member_text(source, "core.targetIdentity"@),
    ) {
        (Some(from), Some(to)) => match column_name(columns, from) {
            Some(name) => seq![(to, name)],
            None => Seq::<(Seq<char>, Seq<char>)>::empty(),
        },
        _ => Seq::<(Seq<char>, Seq<char>)>::empty(),
    });
    if b.len() == 0 {
        assert(a + b =~= a);
        assert(links(a, columns) + links(b, columns) =~= links(a, columns));
    } else {
        every_relationship_may_be_a_link(a, b.drop_last(), source, columns);
        assert((a + b).drop_last() =~= a + b.drop_last());
        assert((a + b).last() == b.last());
        assert(links(a + b, columns) =~= links(a, columns) + links(b, columns));
    }
}

/// A term describes the columns of all the links to it, in their order, and no other.
pub proof fn a_term_describes_the_columns_of_its_links(
    a: Seq<(Seq<char>, Seq<char>)>,
    b: Seq<(Seq<char>, Seq<char>)>,
    link: (Seq<char>, Seq<char>),
    term: Seq<char>,
)
    ensures
        linked_columns(Seq::empty(), term) == Seq::<Seq<char>>::empty(),
        linked_columns(seq![link], term) == if link.0 == term {
            seq![link.1]
        } else {
            Seq::<Seq<char>>::empty()
        },
        linked_columns(a + b, term) == linked_columns(a, term) + linked_columns(b, term),
    decreases b.len(),
{
    reveal_with_fuel(linked_columns, 2);
    assert(seq![link].drop_last() =~= Seq::<(Seq<char>, Seq<char>)>::empty());
    assert(seq![link].last() == link);
    assert(linked_columns(seq![link], term) =~= if link.0 == term {
        seq![link.1]
    } else {
        Seq::<Seq<char>>::empty()
    });
    if b.len() == 0 {
        assert(a + b =~= a);
        assert(linked_columns(a, term) + linked_columns(b, term) =~= linked_columns(a, term));
    } else {
        a_term_describes_the_columns_of_its_links(a, b.drop_last(), link, term);
        assert((a + b).drop_last() =~= a + b.drop_last());
        assert((a + b).last() == b.last());
        assert(linked_columns(a + b, term) =~= linked_columns(a, term) + linked_columns(b, term));
    }
}

proof fn lemma_linked_column(links: Seq<(Seq<char>, Seq<char>)>, term: Seq<char>, l: int)
    requires
        0 <= l < links.len(),
        links[l].0 == term,
    ensures
        linked_columns(links, term).contains(links[l].1),
    decreases links.len(),
{
    let shorter = links.drop_last();
    if l < links.len() - 1 {
        assert(shorter[l] == links[l]);
        lemma_linked_column(shorter, term, l);
        let before = linked_columns(shorter, term);
        let i = choose|i: int| 0 <= i < before.len() && before[i] == links[l].1;
        assert(linked_columns(links, term)[i] == links[l].1);
    } else {
        let now = linked_columns(links, term);
        assert(now[now.len() - 1] == links[l].1);
    }
}

proof fn lemma_column_is_linked(
    links: Seq<(Seq<char>, Seq<char>)>,
    term: Seq<char>,
    name: Seq<char>,
) -> (l: int)
    requires
        linked_columns(links, term).contains(name),
    ensures
        0 <= l < links.len(),
        links[l] == (term, name),
    decreases links.len(),
{
    let now = linked_columns(links, term);
    let i = choose|i: int| 0 <= i < now.len() && now[i] == name;
    if links.len() == 0 {
        0
    } else {
        let shorter = links.drop_last();
        let before = linked_columns(shorter, term);
        if i < before.len() {
            assert(before[i] == name);
            let l = lemma_column_is_linked(shorter, term, name);
            assert(links[l] == shorter[l]);
            l
        } else {
            links.len() - 1
        }
    }
}

proof fn lemma_described_column(
    terms: Seq<JsonView>,
    links: Seq<(Seq<char>, Seq<char>)>,
    wanted: spec_fn(JsonView) -> bool,
    t: int,
    l: int,
)
    requires
        0 <= t < terms.len(),
        0 <= l < links.len(),
        wanted(terms[t]),
        member_text(terms[t], "core.identity"@) == Some(links[l].0),
    ensures
        described_columns(terms, links, wanted).contains(links[l].1),
    decreases terms.len(),
{
    let shorter = terms.drop_last();
    let before = described_columns(shorter, links, wanted);
    let now = described_columns(terms, links, wanted);
    if t < terms.len() - 1 {
        assert(shorter[t] == terms[t]);
        lemma_described_column(shorter, links, wanted, t, l);
        let i = choose|i: int| 0 <= i < before.len() && before[i] == links[l].1;
        assert(now[i] == links[l].1);
    } else {
        lemma_linked_column(links, links[l].0, l);
        let linked = linked_columns(links, links[l].0);
        let i = choose|i: int| 0 <= i < linked.len() && linked[i] == links[l].1;
        assert(now[before.len() + i] == links[l].1);
    }
}

proof fn lemma_column_is_described(
    terms: Seq<JsonView>,
    links: Seq<(Seq<char>, Seq<char>)>,
    wanted: spec_fn(JsonView) -> bool,
    name: Seq<char>,
) -> (at: (int, int))
    requires
        described_columns(terms, links, wanted).contains(name),
    ensures
        0 <= at.0 < terms.len(),
        0 <= at.1 < links.len(),
        wanted(terms[at.0]),
        member_text(terms[at.0], "core.identity"@) == Some(links[at.1].0),
        links[at.1].1 == name,
    decreases terms.len(),
{
    let now = described_columns(terms, links, wanted);
    let i = choose|i: int| 0 <= i < now.len() && now[i] == name;
    if terms.len() == 0 {
        (0, 0)
    } else {
        let shorter = terms.drop_last();
        let before = described_columns(shorter, links, wanted);
        if i < before.len() {
            assert(before[i] == name);
            let at = lemma_column_is_described(shorter, links, wanted, name);
            assert(terms[at.0] == shorter[at.0]);
            at
        } else {
            let id = member_text(terms.last(), "core.identity"@)->0;
            assert(linked_columns(links, id)[i - before.len()] == name);
            (terms.len() - 1, lemma_column_is_linked(links, id, name))
        }
    }
}

/// A column is required exactly where some term that was found has the member `isCDE` with the value
/// `true`, and some link joins that term's id with the column. Nothing else of a term matters.
pub proof fn required_columns_have_a_critical_term(
    terms: Seq<JsonView>,
    links: Seq<(Seq<char>, Seq<char>)>,
    name: Seq<char>,
)
    ensures
        required_columns(terms, links).contains(name) <==> exists|t: int, l: int|
            #![trigger terms[t], links[l]]
            0 <= t < terms.len() && 0 <= l < links.len() && terms[t] is Object
                && terms[t]->Object_0.dom().contains("core.identity"@)
                && terms[t]->Object_0["core.identity"@] == JsonView::Text(links[l].0)
                && terms[t]->Object_0.dom().contains("com.infa.ccgf.models.governance.isCDE"@)
                && terms[t]->Object_0["com.infa.ccgf.models.governance.isCDE"@] == JsonView::Bool(
                true,
            ) && links[l].1 == name,
{
    let wanted = |term: JsonView| required_term(term);
    if required_columns(terms, links).contains(name) {
        let (t, l) = lemma_column_is_described(terms, links, wanted, name);
        assert(wanted(terms[t]) && links[l].1 == name);
    }
    if exists|t: int, l: int|
        #![trigger terms[t], links[l]]
        0 <= t < terms.len() && 0 <= l < links.len() && terms[t] is Object
            && terms[t]->Object_0.dom().contains("core.identity"@)
            && terms[t]->Object_0["core.identity"@] == JsonView::Text(links[l].0)
            && terms[t]->Object_0.dom().contains("com.infa.ccgf.models.governance.isCDE"@)
            && terms[t]->Object_0["com.infa.ccgf.models.governance.isCDE"@] == JsonView::Bool(true)
            && links[l].1 == name {
        let (t, l) = choose|t: int, l: int|
            #![trigger terms[t], links[l]]
            0 <= t < terms.len() && 0 <= l < links.len() && terms[t] is Object
                && terms[t]->Object_0.dom().contains("core.identity"@)
                && terms[t]->Object_0["core.identity"@] == JsonView::Text(links[l].0)
                && terms[t]->Object_0.dom().contains("com.infa.ccgf.models.governance.isCDE"@)
                && terms[t]->Object_0["com.infa.ccgf.models.governance.isCDE"@] == JsonView::Bool(
                true,
            ) && links[l].1 == name;
        lemma_described_column(terms, links, wanted, t, l);
    }
}

/// A column is sensitive exactly where some term that was found is joined with it by a link, and
/// either the term has a security level that is not blank and, trimmed and in lower case, is one of
/// the sensitive levels, or it has no such level and its description, in lower case, holds the
/// marker. Nothing else of a term matters.
pub proof fn sensitive_columns_have_a_sensitive_term(
    terms: Seq<JsonView>,
    links: Seq<(Seq<char>, Seq<char>)>,
    marker: Seq<char>,
    levels: Seq<Seq<char>>,
    name: Seq<char>,
)
    ensures
        sensitive_columns(terms, links, marker, levels).contains(name) <==> exists|t: int, l: int|
            #![trigger terms[t], links[l]]
            0 <= t < terms.len() && 0 <= l < links.len() && member_text(
                terms[t],
                "core.identity"@,
            ) == Some(links[l].0) && links[l].1 == name && (match member_text(
                terms[t],
                "com.infa.ccgf.models.governance.securityClassification"@,
            ) {
                Some(level) if trimmed(level).len() > 0 => levels.contains(
                    lowercase(trimmed(level)),
                ),
                _ => occurs_in(
                    lowercase(
                        match member_text(terms[t], "core.description"@) {
                            Some(description) => description,
                            None => Seq::empty(),
                        },
                    ),
                    marker,
                ),
            }),
{
    let wanted = |term: JsonView| sensitive_term(term, marker, levels);
    assert forall|term: JsonView| #[trigger] wanted(term) == (match member_text(
        term,
        "com.infa.ccgf.models.governance.securityClassification"@,
    ) {
        Some(level) if trimmed(level).len() > 0 => levels.contains(lowercase(trimmed(level))),
        _ => occurs_in(
            lowercase(
                match member_text(term, "core.description"@) {
                    Some(description) => description,
                    None => Seq::empty(),
                },
            ),
            marker,
        ),
    }) by {
        the_description_decides_where_there_is_no_level(term, marker, levels);
    }
    if sensitive_columns(terms, links, marker, levels).contains(name) {
        let (t, l) = lemma_column_is_described(terms, links, wanted, name);
        assert(wanted(terms[t]) && links[l].1 == name);
    }
    if exists|t: int, l: int|
        #![trigger terms[t], links[l]]
        0 <= t < terms.len() && 0 <= l < links.len() && member_text(terms[t], "core.identity"@)
            == Some(links[l].0) && links[l].1 == name && wanted(terms[t]) {
        let (t, l) = choose|t: int, l: int|
            #![trigger terms[t], links[l]]
            0 <= t < terms.len() && 0 <= l < links.len() && member_text(terms[t], "core.identity"@)
                == Some(links[l].0) && links[l].1 == name && wanted(terms[t]);
        lemma_described_column(terms, links, wanted, t, l);
    }
}

/// The columns that terms mark come term by term, in the order in which the terms were found, and
/// for each term in the order of its links.
pub proof fn columns_are_marked_term_by_term(
    a: Seq<JsonView>,
    b: Seq<JsonView>,
    term: JsonView,
    links: Seq<(Seq<char>, Seq<char>)>,
    wanted: spec_fn(JsonView) -> bool,
)
    ensures
        described_columns(Seq::empty(), links, wanted) == Seq::<Seq<char>>::empty(),
        described_columns(seq![term], links, wanted) == (match member_text(
            term,
            "core.identity"@,
        ) {
            Some(id) if wanted(term) => linked_columns(links, id),
            _ => Seq::<Seq<char>>::empty(),
        }),
        described_columns(a + b, links, wanted) == described_columns(a, links, wanted)
            + described_columns(b, links, wanted),
    decreases b.len(),
{
    reveal_with_fuel(described_columns, 2);
    assert(seq![term].drop_last() =~= Seq::<JsonView>::empty());
    assert(seq![term].last() == term);
    assert(described_columns(seq![term], links, wanted) =~= match member_text(
        term,
        "core.identity"@,
    ) {
        Some(id) if wanted(term) => linked_columns(links, id),
        _ => Seq::<Seq<char>>::empty(),
    });
    if b.len() == 0 {
        assert(a + b =~= a);
        assert(described_columns(a, links, wanted) + described_columns(b, links, wanted)
            =~= described_columns(a, links, wanted));
    } else {
        columns_are_marked_term_by_term(a, b.drop_last(), term, links, wanted);
        assert((a + b).drop_last() =~= a + b.drop_last());
        assert((a + b).last() == b.last());
        assert(described_columns(a + b, links, wanted) =~= described_columns(a, links, wanted)
            + described_columns(b, links, wanted));
    }
}

/// Every piece of the configured list counts as a level, trimmed and in lower case, in order; a piece
/// of which nothing is left does not.
pub proof fn every_configured_level_counts(configured: String, pieces: Seq<Seq<char>>)
    requires
        pieces.len() > 0,
        forall|i: int| 0 <= i < pieces.len() ==> !(#[trigger] pieces[i]).contains(','),
        configured@ == joined(pieces, seq![',']),
    ensures
        forall|level: Seq<char>| #[trigger]
            level_texts(Some(configured)).contains(level) <==> level.len() > 0 && exists|i: int|
                0 <= i < pieces.len() && lowercase(trimmed(#[trigger] pieces[i])) == level,
        (forall|i: int| 0 <= i < pieces.len() ==> lowercase(trimmed(#[trigger] pieces[i])).len() > 0)
            ==> level_texts(Some(configured)).len() == pieces.len() && forall|i: int|
            0 <= i < pieces.len() ==> #[trigger] level_texts(Some(configured))[i] == lowercase(
                trimmed(pieces[i]),
            ),
{
    crate::text::a_joined_text_splits_into_its_pieces(pieces, ',');
    lemma_levels_of_pieces(pieces);
    let levels = level_texts(Some(configured));
    assert(levels == levels_of(pieces));
    assert forall|level: Seq<char>| #[trigger]
        levels.contains(level) == (level.len() > 0 && exists|i: int|
            0 <= i < pieces.len() && lowercase(trimmed(#[trigger] pieces[i])) == level) by {
        assert(levels_of(pieces).contains(level) == levels.contains(level));
    }
}

spec fn levels_of(pieces: Seq<Seq<char>>) -> Seq<Seq<char>> {
    non_empty(pieces.map_values(|item: Seq<char>| lowercase(trimmed(item))))
}

proof fn lemma_levels_of_pieces(pieces: Seq<Seq<char>>)
    ensures
        forall|level: Seq<char>| #[trigger]
            levels_of(pieces).contains(level) <==> level.len() > 0 && exists|i: int|
                0 <= i < pieces.len() && lowercase(trimmed(#[trigger] pieces[i])) == level,
        (forall|i: int| 0 <= i < pieces.len() ==> lowercase(trimmed(#[trigger] pieces[i])).len() > 0)
            ==> levels_of(pieces).len() == pieces.len() && forall|i: int|
            0 <= i < pieces.len() ==> #[trigger] levels_of(pieces)[i] == lowercase(
                trimmed(pieces[i]),
            ),
    decreases pieces.len(),
{
    let normal = |item: Seq<char>| lowercase(trimmed(item));
    if pieces.len() == 0 {
        crate::text::empty_pieces_go(Seq::empty(), Seq::empty(), Seq::empty());
        assert(pieces.map_values(normal) =~= Seq::<Seq<char>>::empty());
    } else {
        let shorter = pieces.drop_last();
        let top = pieces.len() - 1;
        let last = normal(pieces[top]);
        lemma_levels_of_pieces(shorter);
        crate::text::empty_pieces_go(shorter.map_values(normal), seq![last], last);
        assert(pieces.map_values(normal) =~= shorter.map_values(normal) + seq![last]);
        let before = levels_of(shorter);
        let now = levels_of(pieces);
        assert(now == before + (if last.len() > 0 {
            seq![last]
        } else {
            Seq::<Seq<char>>::empty()
        }));
        assert forall|level: Seq<char>| #[trigger]
            now.contains(level) == (level.len() > 0 && exists|i: int|
                0 <= i < pieces.len() && lowercase(trimmed(#[trigger] pieces[i])) == level) by {
            if now.contains(level) {
                let k = choose|k: int| 0 <= k < now.len() && now[k] == level;
                if k < before.len() {
                    assert(before[k] == level);
                    assert(before.contains(level));
                    let i = choose|i: int|
                        0 <= i < shorter.len() && lowercase(trimmed(#[trigger] shorter[i]))
                            == level;
                    assert(pieces[i] == shorter[i]);
                } else {
                    assert(lowercase(trimmed(pieces[top])) == level);
                }
            }
            if level.len() > 0 && exists|i: int|
                0 <= i < pieces.len() && lowercase(trimmed(#[trigger] pieces[i])) == level {
                let i = choose|i: int|
                    0 <= i < pieces.len() && lowercase(trimmed(#[trigger] pieces[i])) == level;
                if i < top {
                    assert(shorter[i] == pieces[i]);
                    assert(before.contains(level));
                    let k = choose|k: int| 0 <= k < before.len() && before[k] == level;
                    assert(now[k] == level);
                } else {
                    assert(now[before.len() as int] == level);
                }
            }
        }
        if forall|i: int|
            0 <= i < pieces.len() ==> lowercase(trimmed(#[trigger] pieces[i])).len() > 0 {
            assert forall|i: int| 0 <= i < shorter.len() implies lowercase(
                trimmed(#[trigger] shorter[i]),
            ).len() > 0 by {
                assert(shorter[i] == pieces[i]);
            }
            assert(last.len() > 0) by {
                assert(lowercase(trimmed(pieces[top])).len() > 0);
            }
            assert forall|i: int| 0 <= i < pieces.len() implies #[trigger] now[i] == lowercase(
                trimmed(pieces[i]),
            ) by {
                if i < top {
                    assert(before[i] == lowercase(trimmed(shorter[i])));
                }
            }
        }
    }
}

/// Where no levels are configured, `confidential` and `restricted` are the levels, as if they had
/// been; where no marker is, it is `confidential`. A configured marker counts in lower case.
pub proof fn marks_have_their_defaults(configured: String, marker: String)
    requires
        configured@ == "confidential,restricted"@,
    ensures
        level_texts(None) == level_texts(Some(configured)),
        marker_text(Some(marker)) == lowercase(marker@),
        marker_text(None) == lowercase("confidential"@),
{
}

/// A level that is there decides alone, by being one of the sensitive levels; else the description
/// decides, by holding the marker.
pub proof fn a_level_decides_where_there_is_one(
    level: Seq<char>,
    description: Seq<char>,
    marker: Seq<char>,
    levels: Seq<Seq<char>>,
)
    ensures
        marked_sensitive(Some(level), description, marker, levels) <==> exists|i: int|
            0 <= i < levels.len() && #[trigger] levels[i] == level,
        marked_sensitive(None, description, marker, levels) <==> exists|
            front: Seq<char>,
            back: Seq<char>,
        | description == #[trigger] (front + marker + back),
{
    crate::text::a_pattern_stands_between_the_rest(description, marker);
}

/// A list is written with commas between its items, and is left out where it has none.
pub proof fn a_list_is_written_with_commas(items: Seq<Seq<char>>)
    ensures
        list_text(items) is None <==> items.len() == 0,
        list_text(items) matches Some(text) ==> text == joined(items, seq![',']),
{
    reveal_strlit(",");
    assert(","@ =~= seq![',']);
}

/// The headers of a summary, one by one: each is there exactly where its value is, with that value.
pub proof fn a_summary_has_these_headers(
    file: JsonView,
    columns: Seq<(Seq<char>, Seq<char>)>,
    required: Seq<Seq<char>>,
    sensitive: Seq<Seq<char>>,
)
    ensures
        ({
            let fields = summary_fields(file, columns, required, sensitive);
            let names = seconds(columns);
            let flagged = ascending_distinct(required);
            let hidden = ascending_distinct(sensitive);
            &&& fields.dom().contains("x-dp-name"@) <==> member_text(file, "core.name"@) is Some
            &&& fields.dom().contains("x-dp-name"@) ==> Some(fields["x-dp-name"@]) == member_text(
                file,
                "core.name"@,
            )
            &&& fields.dom().contains("x-dp-external-id"@) <==> member_text(
                file,
                "core.externalId"@,
            ) is Some
            &&& fields.dom().contains("x-dp-external-id"@) ==> Some(fields["x-dp-external-id"@])
                == member_text(file, "core.externalId"@)
            &&& fields.dom().contains("x-dp-source"@) <==> member_text(file, "core.origin"@) is Some
            &&& fields.dom().contains("x-dp-source"@) ==> Some(fields["x-dp-source"@])
                == member_text(file, "core.origin"@)
            &&& fields.dom().contains("x-dp-field-count"@)
            &&& fields["x-dp-field-count"@] == decimal(columns.len())
            &&& fields.dom().contains("x-dp-fields"@) <==> names.len() > 0
            &&& names.len() > 0 ==> fields["x-dp-fields"@] == joined(names, seq![','])
            &&& fields.dom().contains("x-dp-required"@) <==> flagged.len() > 0
            &&& flagged.len() > 0 ==> fields["x-dp-required"@] == joined(flagged, seq![','])
            &&& fields.dom().contains("x-dp-sensitive"@) <==> hidden.len() > 0
            &&& hidden.len() > 0 ==> fields["x-dp-sensitive"@] == joined(hidden, seq![','])
        }),
{
    a_summary_describes_the_asset(file, columns, required, sensitive);
    a_list_is_written_with_commas(seconds(columns));
    a_list_is_written_with_commas(ascending_distinct(required));
    a_list_is_written_with_commas(ascending_distinct(sensitive));
}

} // verus!
