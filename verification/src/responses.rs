use vstd::prelude::*;

verus! {

/// A single joke record, as returned by the fetch and search operations.
#[derive(Debug, Clone, PartialEq, Eq)]
pub struct Joke {
    pub id: String,
    pub joke: String,
}

/// Response of the random-joke operation.
///
/// The service answers with one flat object: the joke text sits beside the
/// id and status at the top level, so the record is modelled flat as well.
#[derive(Debug, Clone, PartialEq, Eq)]
pub struct SuccessfulResponse {
    pub id: String,
    pub status: i32,
    pub joke: String,
}

/// Response of the search operation: one page of jokes plus pagination
/// metadata.
#[derive(Debug, Clone, PartialEq, Eq)]
pub struct SearchResponse {
    pub current_page: i32,
    pub limit: i32,
    pub next_page: i32,
    pub previous_page: i32,
    pub results: Vec<Joke>,
    pub search_term: String,
    pub status: i32,
    pub total_jokes: i32,
    pub total_pages: i32,
}

/// Mathematical value of a `Joke`.
pub struct JokeV {
    pub id: Seq<char>,
    pub joke: Seq<char>,
}

/// Mathematical value of a `SuccessfulResponse`.
pub struct SuccessfulResponseV {
    pub id: Seq<char>,
    pub status: int,
    pub joke: Seq<char>,
}

/// Mathematical value of a `SearchResponse`.
pub struct SearchResponseV {
    pub current_page: int,
    pub limit: int,
    pub next_page: int,
    pub previous_page: int,
    pub results: Seq<JokeV>,
    pub search_term: Seq<char>,
    pub status: int,
    pub total_jokes: int,
    pub total_pages: int,
}

impl View for Joke {
    type V = JokeV;

    open spec fn view(&self) -> JokeV {
        JokeV { id: self.id@, joke: self.joke@ }
    }
}

impl View for SuccessfulResponse {
    type V = SuccessfulResponseV;

    open spec fn view(&self) -> SuccessfulResponseV {
        SuccessfulResponseV { id: self.id@, status: self.status as int, joke: self.joke@ }
    }
}

impl View for SearchResponse {
    type V = SearchResponseV;

    open spec fn view(&self) -> SearchResponseV {
        SearchResponseV {
            current_page: self.current_page as int,
            limit: self.limit as int,
            next_page: self.next_page as int,
            previous_page: self.previous_page as int,
            results: self.results@.map(|i: int, j: Joke| j@),
            search_term: self.search_term@,
            status: self.status as int,
            total_jokes: self.total_jokes as int,
            total_pages: self.total_pages as int,
        }
    }
}

} // verus!
