//! The survey of the catalog behind a summary: which search follows on what the last one found.

use crate::calls::{FetchError, Missing};
use crate::fields::Fields;
use crate::json::{
    body_items_view, items_view, items_view_is_itemwise, member_text, Body, Json, JsonView,
};
use crate::ordered::{ascending_distinct, sort_distinct};
use crate::search::{query, search_query, term, terms, terms_clause};
use crate::summary::{
    column_pairs, columns, columns_of, described_columns, firsts, link_pairs, links, links_of,
    marked_columns, required_columns, sensitive_columns, stamp, summary_fields, Column, Link,
    Sensitivity,
};
use crate::text::texts;
use vstd::prelude::*;
use vstd::string::*;

verus! {

/// The class of a flat file's columns.
pub const CT_FLATFIELD: &'static str = "com.infa.odin.models.file.flat.FlatField";

/// The relationship from a column to its Business Term.
pub const REL_TECH_GLOSSARY: &'static str = "com.infa.ccgf.models.governance.IClassTechnicalGlossaryBase";

/// How far a survey has come: which search it awaits, and what it knows.
#[derive(Debug)]
pub enum Survey {
    /// Awaits the asset.
    Asset,
    /// Awaits the columns of the asset.
    Columns { file: Json },
    /// Awaits the relationships of the columns to terms.
    Relations { file: Json, columns: Vec<Column> },
    /// Awaits the terms.
    Terms { file: Json, columns: Vec<Column>, links: Vec<Link> },
}

/// What a survey does next.
#[derive(Debug)]
pub enum Progress {
    /// Runs a query.
    Search { next: Survey, query: Body },
    /// Ends with the header fields of the summary.
    Finished { fields: Fields },
}

/// The model of a survey.
pub enum SurveyView {
    Asset,
    Columns { file: JsonView },
    Relations { file: JsonView, columns: Seq<(Seq<char>, Seq<char>)> },
    Terms {
        file: JsonView,
        columns: Seq<(Seq<char>, Seq<char>)>,
        links: Seq<(Seq<char>, Seq<char>)>,
    },
}

/// The model of what a survey does next.
pub enum ProgressView {
    Search { next: SurveyView, query: JsonView },
    Finished { fields: Map<Seq<char>, Seq<char>> },
}

impl View for Survey {
    type V = SurveyView;

    open spec fn view(&self) -> SurveyView {
        match self {
            Survey::Asset => SurveyView::Asset,
            Survey::Columns { file } => SurveyView::Columns { file: file.view() },
            Survey::Relations { file, columns } => SurveyView::Relations {
                file: file.view(),
                columns: column_pairs(columns@),
            },
            Survey::Terms { file, columns, links } => SurveyView::Terms {
                file: file.view(),
                columns: column_pairs(columns@),
                links: link_pairs(links@),
            },
        }
    }
}

impl View for Progress {
    type V = ProgressView;

    open spec fn view(&self) -> ProgressView {
        match self {
            Progress::Search { next, query } => ProgressView::Search {
                next: next@,
                query: query.view(),
            },
            Progress::Finished { fields } => ProgressView::Finished { fields: fields@ },
        }
    }
}

/// The query for the asset with an id.
pub open spec fn asset_query(schema_id: Seq<char>) -> JsonView {
    search_query(
        1,
        seq![
            terms_clause("elementType"@, seq!["OBJECT"@]),
            terms_clause("core.identity"@, seq![schema_id]),
        ],
        None,
    )
}

/// The query for the columns at a location.
pub open spec fn columns_query(location: Seq<char>) -> JsonView {
    search_query(
        1000,
        seq![terms_clause("core.classType"@, seq![CT_FLATFIELD@])],
        Some(seq![terms_clause("core.location::path_hierarchy.parent"@, seq![location])]),
    )
}

/// The query for the relationships of some columns to terms.
pub open spec fn relations_query(column_ids: Seq<Seq<char>>) -> JsonView {
    search_query(
        5000,
        seq![
            terms_clause("elementType"@, seq!["RELATIONSHIP"@]),
            terms_clause("type"@, seq![REL_TECH_GLOSSARY@]),
            terms_clause("core.sourceIdentity"@, column_ids),
        ],
        None,
    )
}

/// The query for some terms.
pub open spec fn terms_query(term_ids: Seq<Seq<char>>) -> JsonView {
    search_query(
        5000,
        seq![
            terms_clause("elementType"@, seq!["OBJECT"@]),
            terms_clause("core.identity"@, term_ids),
        ],
        None,
    )
}

/// What a survey does when the search that it awaits has found some sources.
pub open spec fn survey_step(
    state: SurveyView,
    sources: Seq<JsonView>,
    marker: Seq<char>,
    levels: Seq<Seq<char>>,
) -> Result<ProgressView, Missing> {
    match state {
        SurveyView::Asset => if sources.len() == 0 {
            Err(Missing::Asset)
        } else {
            match member_text(sources[0], "core.location"@) {
                Some(location) => Ok(
                    ProgressView::Search {
                        next: SurveyView::Columns { file: sources[0] },
                        query: columns_query(location),
                    },
                ),
                None => Err(Missing::Location),
            }
        },
        SurveyView::Columns { file } => {
            let columns = columns(sources);
            if columns.len() == 0 {
                Ok(
                    ProgressView::Finished {
                        fields: summary_fields(file, columns, Seq::empty(), Seq::empty()),
                    },
                )
            } else {
                Ok(
                    ProgressView::Search {
                        next: SurveyView::Relations { file, columns },
                        query: relations_query(firsts(columns)),
                    },
                )
            }
        },
        SurveyView::Relations { file, columns } => {
            let links = links(sources, columns);
            if links.len() == 0 {
                Ok(
                    ProgressView::Finished {
                        fields: summary_fields(file, columns, Seq::empty(), Seq::empty()),
                    },
                )
            } else {
                Ok(
                    ProgressView::Search {
                        next: SurveyView::Terms { file, columns, links },
                        query: terms_query(ascending_distinct(firsts(links))),
                    },
                )
            }
        },
        SurveyView::Terms { file, columns, links } => Ok(
            ProgressView::Finished {
                fields: summary_fields(
                    file,
                    columns,
                    required_columns(sources, links),
                    sensitive_columns(sources, links, marker, levels),
                ),
            },
        ),
    }
}

/// Each condition's model stands at the condition's place.
proof fn lemma_clauses(clauses: Seq<Body>)
    ensures
        body_items_view(clauses).len() == clauses.len(),
        forall|i: int|
            0 <= i < clauses.len() ==> #[trigger] body_items_view(clauses)[i] == clauses[i].view(),
    decreases clauses.len(),
{
    if clauses.len() > 0 {
        lemma_clauses(clauses.drop_last());
        assert forall|i: int| 0 <= i < clauses.len() implies #[trigger] body_items_view(clauses)[i]
            == clauses[i].view() by {
            if i < clauses.len() - 1 {
                assert(body_items_view(clauses)[i] == body_items_view(clauses.drop_last())[i]);
            }
        }
    }
}

fn ask_for_asset(schema_id: &str) -> (r: Body)
    ensures
        r.view() == asset_query(schema_id@),
{
    let mut must: Vec<Body> = Vec::new();
    must.push(term("elementType", "OBJECT"));
    must.push(term("core.identity", schema_id));
    proof {
        lemma_clauses(must@);
        assert(body_items_view(must@) =~= seq![
            terms_clause("elementType"@, seq!["OBJECT"@]),
            terms_clause("core.identity"@, seq![schema_id@]),
        ]);
    }
    query(1, must, None)
}

fn ask_for_columns(location: &str) -> (r: Body)
    ensures
        r.view() == columns_query(location@),
{
    let mut must: Vec<Body> = Vec::new();
    must.push(term("core.classType", CT_FLATFIELD));
    let mut filter: Vec<Body> = Vec::new();
    filter.push(term("core.location::path_hierarchy.parent", location));
    proof {
        lemma_clauses(must@);
        lemma_clauses(filter@);
        assert(body_items_view(must@) =~= seq![
            terms_clause("core.classType"@, seq![CT_FLATFIELD@]),
        ]);
        assert(body_items_view(filter@) =~= seq![
            terms_clause("core.location::path_hierarchy.parent"@, seq![location@]),
        ]);
    }
    query(1000, must, Some(filter))
}

fn ask_for_relations(column_ids: Vec<String>) -> (r: Body)
    ensures
        r.view() == relations_query(texts(column_ids@)),
{
    let mut must: Vec<Body> = Vec::new();
    must.push(term("elementType", "RELATIONSHIP"));
    must.push(term("type", REL_TECH_GLOSSARY));
    must.push(terms("core.sourceIdentity", column_ids));
    proof {
        lemma_clauses(must@);
        assert(body_items_view(must@) =~= seq![
            terms_clause("elementType"@, seq!["RELATIONSHIP"@]),
            terms_clause("type"@, seq![REL_TECH_GLOSSARY@]),
            terms_clause("core.sourceIdentity"@, texts(column_ids@)),
        ]);
    }
    query(5000, must, None)
}

fn ask_for_terms(term_ids: Vec<String>) -> (r: Body)
    ensures
        r.view() == terms_query(texts(term_ids@)),
{
    let mut must: Vec<Body> = Vec::new();
    must.push(term("elementType", "OBJECT"));
    must.push(terms("core.identity", term_ids));
    proof {
        lemma_clauses(must@);
        assert(body_items_view(must@) =~= seq![
            terms_clause("elementType"@, seq!["OBJECT"@]),
            terms_clause("core.identity"@, texts(term_ids@)),
        ]);
    }
    query(5000, must, None)
}

fn ids_of(columns: &Vec<Column>) -> (r: Vec<String>)
    ensures
        texts(r@) == firsts(column_pairs(columns@)),
{
    let mut out: Vec<String> = Vec::new();
    let mut i: usize = 0;
    while i < columns.len()
        invariant
            i <= columns@.len(),
            texts(out@) == firsts(column_pairs(columns@)).take(i as int),
        decreases columns@.len() - i,
    {
        let ghost before = out@;
        let id = columns[i].id.clone();
        out.push(id);
        proof {
            let all = firsts(column_pairs(columns@));
            assert(texts(out@) =~= texts(before).push(id@));
            assert(all.take(i + 1) =~= all.take(i as int).push(all[i as int]));
        }
        i += 1;
    }
    assert(firsts(column_pairs(columns@)).take(i as int) =~= firsts(column_pairs(columns@)));
    out
}

fn terms_of(links: &Vec<Link>) -> (r: Vec<String>)
    ensures
        texts(r@) == firsts(link_pairs(links@)),
{
    let mut out: Vec<String> = Vec::new();
    let mut i: usize = 0;
    while i < links.len()
        invariant
            i <= links@.len(),
            texts(out@) == firsts(link_pairs(links@)).take(i as int),
        decreases links@.len() - i,
    {
        let ghost before = out@;
        let id = links[i].term.clone();
        out.push(id);
        proof {
            let all = firsts(link_pairs(links@));
            assert(texts(out@) =~= texts(before).push(id@));
            assert(all.take(i + 1) =~= all.take(i as int).push(all[i as int]));
        }
        i += 1;
    }
    assert(firsts(link_pairs(links@)).take(i as int) =~= firsts(link_pairs(links@)));
    out
}

impl Survey {
    /// Begins the survey of an asset: awaits the asset, with the query for it.
    pub fn begin(schema_id: &str) -> (r: (Survey, Body))
        ensures
            r.0@ == SurveyView::Asset,
            r.1.view() == asset_query(schema_id@),
    {
        (Survey::Asset, ask_for_asset(schema_id))
    }

    /// Goes on with what the awaited search found.
    pub fn advance(
        self,
        sources: Vec<Json>,
        sensitivity: &Sensitivity,
    ) -> (r: Result<Progress, FetchError>)
        ensures
            match survey_step(
                self@,
                items_view(sources@),
                sensitivity.marker@,
                texts(sensitivity.levels@),
            ) {
                Ok(progress) => r matches Ok(out) && out@ == progress,
                Err(missing) => r matches Err(FetchError::Missing(what)) && what == missing,
            },
    {
        let none: Vec<String> = Vec::new();
        assert(texts(none@) =~= Seq::<Seq<char>>::empty());
        match self {
            Survey::Asset => {
                proof {
                    items_view_is_itemwise(sources@);
                }
                if sources.len() == 0 {
                    return Err(FetchError::Missing(Missing::Asset));
                }
                let mut sources = sources;
                let file = sources.swap_remove(0);
                match file.text_at("core.location") {
                    Some(location) => Ok(
                        Progress::Search {
                            query: ask_for_columns(location.as_str()),
                            next: Survey::Columns { file },
                        },
                    ),
                    None => Err(FetchError::Missing(Missing::Location)),
                }
            },
            Survey::Columns { file } => {
                let columns = columns_of(&sources);
                if columns.len() == 0 {
                    let fields = stamp(&file, &columns, &none, &none);
                    Ok(Progress::Finished { fields })
                } else {
                    let query = ask_for_relations(ids_of(&columns));
                    Ok(Progress::Search { next: Survey::Relations { file, columns }, query })
                }
            },
            Survey::Relations { file, columns } => {
                let links = links_of(&sources, &columns);
                if links.len() == 0 {
                    let fields = stamp(&file, &columns, &none, &none);
                    Ok(Progress::Finished { fields })
                } else {
                    let query = ask_for_terms(sort_distinct(&terms_of(&links)));
                    Ok(Progress::Search { next: Survey::Terms { file, columns, links }, query })
                }
            },
            Survey::Terms { file, columns, links } => {
                let (required, sensitive) = marked_columns(&sources, &links, sensitivity);
                let fields = stamp(&file, &columns, &required, &sensitive);
                Ok(Progress::Finished { fields })
            },
        }
    }
}

/// The number of searches that a survey may still make after the one that it awaits.
pub open spec fn searches_left(state: SurveyView) -> nat {
    match state {
        SurveyView::Asset => 3,
        SurveyView::Columns { .. } => 2,
        SurveyView::Relations { .. } => 1,
        SurveyView::Terms { .. } => 0,
    }
}

/// What a survey ends with, where the catalog answers every query by `answers`.
pub open spec fn survey_result(
    state: SurveyView,
    awaited: JsonView,
    answers: spec_fn(JsonView) -> Seq<JsonView>,
    marker: Seq<char>,
    levels: Seq<Seq<char>>,
) -> Result<Map<Seq<char>, Seq<char>>, Missing>
    decreases searches_left(state),
{
    match survey_step(state, answers(awaited), marker, levels) {
        Ok(ProgressView::Search { next, query }) => survey_result(
            next,
            query,
            answers,
            marker,
            levels,
        ),
        Ok(ProgressView::Finished { fields }) => Ok(fields),
        Err(missing) => Err(missing),
    }
}

/// The summary of an asset in a catalog that answers every query by `answers`: all four queries are
/// made, and what they find is put together.
pub open spec fn catalog_summary(
    schema_id: Seq<char>,
    answers: spec_fn(JsonView) -> Seq<JsonView>,
    marker: Seq<char>,
    levels: Seq<Seq<char>>,
) -> Result<Map<Seq<char>, Seq<char>>, Missing> {
    let files = answers(asset_query(schema_id));
    if files.len() == 0 {
        Err(Missing::Asset)
    } else {
        match member_text(files[0], "core.location"@) {
            Some(location) => {
                let columns = columns(answers(columns_query(location)));
                let links = links(answers(relations_query(firsts(columns))), columns);
                let terms = answers(terms_query(ascending_distinct(firsts(links))));
                Ok(
                    summary_fields(
                        files[0],
                        columns,
                        required_columns(terms, links),
                        sensitive_columns(terms, links, marker, levels),
                    ),
                )
            },
            None => Err(Missing::Location),
        }
    }
}

proof fn lemma_no_links_without_columns(sources: Seq<JsonView>)
    ensures
        links(sources, Seq::empty()) == Seq::<(Seq<char>, Seq<char>)>::empty(),
    decreases sources.len(),
{
    if sources.len() > 0 {
        lemma_no_links_without_columns(sources.drop_last());
    }
}

proof fn lemma_nothing_described_without_links(
    terms: Seq<JsonView>,
    wanted: spec_fn(JsonView) -> bool,
)
    ensures
        described_columns(terms, Seq::empty(), wanted) == Seq::<Seq<char>>::empty(),
    decreases terms.len(),
{
    if terms.len() > 0 {
        lemma_nothing_described_without_links(terms.drop_last(), wanted);
        assert(described_columns(terms, Seq::empty(), wanted) =~= Seq::<Seq<char>>::empty());
    }
}

/// A survey that leaves out a search has lost nothing by it: it ends with the same summary as if
/// all four queries had been made.
pub proof fn a_survey_ends_with_the_catalog_summary(
    schema_id: Seq<char>,
    answers: spec_fn(JsonView) -> Seq<JsonView>,
    marker: Seq<char>,
    levels: Seq<Seq<char>>,
)
    ensures
        survey_result(SurveyView::Asset, asset_query(schema_id), answers, marker, levels)
            == catalog_summary(schema_id, answers, marker, levels),
{
    reveal_with_fuel(survey_result, 4);
    let files = answers(asset_query(schema_id));
    if files.len() > 0 && member_text(files[0], "core.location"@) is Some {
        let location = member_text(files[0], "core.location"@)->0;
        let cols = columns(answers(columns_query(location)));
        let related = answers(relations_query(firsts(cols)));
        let linked = links(related, cols);
        let found = answers(terms_query(ascending_distinct(firsts(linked))));
        if cols.len() == 0 {
            assert(cols =~= Seq::empty());
            lemma_no_links_without_columns(related);
        }
        if linked.len() == 0 {
            assert(linked =~= Seq::empty());
            lemma_nothing_described_without_links(
                found,
                |term: JsonView| crate::summary::required_term(term),
            );
            lemma_nothing_described_without_links(
                found,
                |term: JsonView| crate::summary::sensitive_term(term, marker, levels),
            );
        }
    }
}

/// Every search brings a survey nearer to its end: it makes four at most.
pub proof fn a_survey_makes_four_searches_at_most(
    state: SurveyView,
    sources: Seq<JsonView>,
    marker: Seq<char>,
    levels: Seq<Seq<char>>,
)
    ensures
        searches_left(state) <= 3,
        survey_step(state, sources, marker, levels) matches Ok(
            ProgressView::Search { next, .. },
        ) ==> searches_left(next) < searches_left(state),
{
}

/// What is asked for, in the words of the catalog: the object with the id; the columns of flat files
/// right under the location; the glossary relationships that start at one of the columns; the objects
/// with one of the ids.
pub proof fn queries_ask_in_these_words(
    schema_id: Seq<char>,
    location: Seq<char>,
    column_ids: Seq<Seq<char>>,
    term_ids: Seq<Seq<char>>,
)
    ensures
        asset_query(schema_id) == search_query(
            1,
            seq![
                terms_clause("elementType"@, seq!["OBJECT"@]),
                terms_clause("core.identity"@, seq![schema_id]),
            ],
            None,
        ),
        columns_query(location) == search_query(
            1000,
            seq![
                terms_clause(
                    "core.classType"@,
                    seq!["com.infa.odin.models.file.flat.FlatField"@],
                ),
            ],
            Some(seq![terms_clause("core.location::path_hierarchy.parent"@, seq![location])]),
        ),
        relations_query(column_ids) == search_query(
            5000,
            seq![
                terms_clause("elementType"@, seq!["RELATIONSHIP"@]),
                terms_clause(
                    "type"@,
                    seq!["com.infa.ccgf.models.governance.IClassTechnicalGlossaryBase"@],
                ),
                terms_clause("core.sourceIdentity"@, column_ids),
            ],
            None,
        ),
        terms_query(term_ids) == search_query(
            5000,
            seq![
                terms_clause("elementType"@, seq!["OBJECT"@]),
                terms_clause("core.identity"@, term_ids),
            ],
            None,
        ),
{
}

/// A survey of an asset that was found with its location goes on to its columns; with columns to
/// their relationships; with links to the terms, each asked for once; with the terms to the summary.
/// It ends before that only without columns or without links, with a summary that marks none, and
/// fails only without the asset or its location.
pub proof fn a_survey_goes_on_while_it_finds(
    sources: Seq<JsonView>,
    file: JsonView,
    known: Seq<(Seq<char>, Seq<char>)>,
    linked: Seq<(Seq<char>, Seq<char>)>,
    marker: Seq<char>,
    levels: Seq<Seq<char>>,
)
    ensures
        survey_step(SurveyView::Asset, sources, marker, levels) == (if sources.len() == 0 {
            Err(Missing::Asset)
        } else if member_text(sources[0], "core.location"@) is None {
            Err(Missing::Location)
        } else {
            Ok(
                ProgressView::Search {
                    next: SurveyView::Columns { file: sources[0] },
                    query: columns_query(member_text(sources[0], "core.location"@)->0),
                },
            )
        }),
        columns(sources).len() > 0 ==> survey_step(
            SurveyView::Columns { file },
            sources,
            marker,
            levels,
        ) == Ok::<ProgressView, Missing>(
            ProgressView::Search {
                next: SurveyView::Relations { file, columns: columns(sources) },
                query: relations_query(firsts(columns(sources))),
            },
        ),
        columns(sources).len() == 0 ==> survey_step(
            SurveyView::Columns { file },
            sources,
            marker,
            levels,
        ) == Ok::<ProgressView, Missing>(
            ProgressView::Finished {
                fields: summary_fields(file, Seq::empty(), Seq::empty(), Seq::empty()),
            },
        ),
        links(sources, known).len() > 0 ==> survey_step(
            SurveyView::Relations { file, columns: known },
            sources,
            marker,
            levels,
        ) == Ok::<ProgressView, Missing>(
            ProgressView::Search {
                next: SurveyView::Terms { file, columns: known, links: links(sources, known) },
                query: terms_query(ascending_distinct(firsts(links(sources, known)))),
            },
        ),
        links(sources, known).len() == 0 ==> survey_step(
            SurveyView::Relations { file, columns: known },
            sources,
            marker,
            levels,
        ) == Ok::<ProgressView, Missing>(
            ProgressView::Finished {
                fields: summary_fields(file, known, Seq::empty(), Seq::empty()),
            },
        ),
        survey_step(
            SurveyView::Terms { file, columns: known, links: linked },
            sources,
            marker,
            levels,
        ) == Ok::<ProgressView, Missing>(
            ProgressView::Finished {
                fields: summary_fields(
                    file,
                    known,
                    required_columns(sources, linked),
                    sensitive_columns(sources, linked, marker, levels),
                ),
            },
        ),
{
    if columns(sources).len() == 0 {
        assert(columns(sources) =~= Seq::empty());
    }
}

/// The model of a survey, and of what it does next, keeps all that they hold.
pub proof fn a_survey_is_modelled_as_it_is(
    file: Json,
    known: Vec<Column>,
    linked: Vec<Link>,
    next: Survey,
    query: Body,
    fields: Fields,
)
    ensures
        Survey::Asset@ == SurveyView::Asset,
        (Survey::Columns { file })@ == (SurveyView::Columns { file: file.view() }),
        (Survey::Relations { file, columns: known })@ == (SurveyView::Relations {
            file: file.view(),
            columns: column_pairs(known@),
        }),
        (Survey::Terms { file, columns: known, links: linked })@ == (SurveyView::Terms {
            file: file.view(),
            columns: column_pairs(known@),
            links: link_pairs(linked@),
        }),
        (Progress::Search { next, query })@ == (ProgressView::Search {
            next: next@,
            query: query.view(),
        }),
        (Progress::Finished { fields })@ == (ProgressView::Finished { fields: fields@ }),
{
}

} // verus!
