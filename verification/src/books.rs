//! The book endpoints. They keep nothing: each answers from its own input,
//! or from a fixed list.

use vstd::prelude::*;
use vstd::string::StringExecFns;
use crate::reply::Failure;

verus! {

/// A book, as a JSON body carries it.
#[derive(Debug, PartialEq, Eq)]
pub struct Book {
    pub title: String,
    pub genre: String,
}

/// What a [`Book`] is, as two sequences of characters.
pub struct BookView {
    pub title: Seq<char>,
    pub genre: Seq<char>,
}

impl View for Book {
    type V = BookView;

    open spec fn view(&self) -> BookView {
        BookView { title: self.title@, genre: self.genre@ }
    }
}

impl Book {
    /// Builds a book from the two fields of a decoded body. Both are
    /// required: with either absent the body is malformed.
    pub fn bind(title: Option<String>, genre: Option<String>) -> (bound: Result<Book, Failure>)
        ensures
            title.is_some() && genre.is_some() ==> bound.is_ok() && bound.unwrap()@ == (BookView {
                title: title.unwrap()@,
                genre: genre.unwrap()@,
            }),
            title.is_none() || genre.is_none() ==> bound == Err::<Book, Failure>(
                Failure::MalformedBody,
            ),
    {
        match (title, genre) {
            (Some(title), Some(genre)) => Ok(Book { title, genre }),
            _ => Err(Failure::MalformedBody),
        }
    }
}

/// The two parameters of a search.
#[derive(Debug, PartialEq, Eq)]
pub struct QueryParams {
    pub title: String,
    pub year: String,
}

impl Default for QueryParams {
    /// Both parameters empty.
    fn default() -> (params: Self)
        ensures
            params.title@ == Seq::<char>::empty(),
            params.year@ == Seq::<char>::empty(),
    {
        QueryParams { title: String::new(), year: String::new() }
    }
}

impl QueryParams {
    /// Builds the parameters from what the query string held under `title`
    /// and `year`. Both are required: with either absent the query is
    /// malformed.
    pub fn bind(title: Option<String>, year: Option<String>) -> (bound: Result<
        QueryParams,
        Failure,
    >)
        ensures
            title.is_some() && year.is_some() ==> bound.is_ok() && bound.unwrap().title@
                == title.unwrap()@ && bound.unwrap().year@ == year.unwrap()@,
            title.is_none() || year.is_none() ==> bound == Err::<QueryParams, Failure>(
                Failure::MalformedQuery,
            ),
    {
        match (title, year) {
            (Some(title), Some(year)) => Ok(QueryParams { title, year }),
            _ => Err(Failure::MalformedQuery),
        }
    }
}

/// The text that answers a search for `title` and `year`.
pub open spec fn search_text(title: Seq<char>, year: Seq<char>) -> Seq<char> {
    "Hard Questions: \nTitle: "@ + title + "\nYear: "@ + year
}

/// The text that answers a request for the details of book `id`.
pub open spec fn detail_text(id: Seq<char>) -> Seq<char> {
    "Details for book "@ + id
}

/// The text that answers the creation of a book.
pub open spec fn create_text(book: BookView) -> Seq<char> {
    "Title: "@ + book.title + ", Genre: "@ + book.genre
}

/// Echoes the two required query parameters; without both, the query is
/// malformed.
pub fn search(title: Option<String>, year: Option<String>) -> (outcome: Result<String, Failure>)
    ensures
        title.is_some() && year.is_some() ==> outcome.is_ok() && outcome.unwrap()@ == search_text(
            title.unwrap()@,
            year.unwrap()@,
        ),
        title.is_none() || year.is_none() ==> outcome == Err::<String, Failure>(
            Failure::MalformedQuery,
        ),
{
    match QueryParams::bind(title, year) {
        Ok(query) => {
            let mut body = String::from_str("Hard Questions: \nTitle: ");
            body.append(query.title.as_str());
            body.append("\nYear: ");
            body.append(query.year.as_str());
            Ok(body)
        },
        Err(failure) => Err(failure),
    }
}

/// Names the book whose id the path gave; an absent id counts as empty.
pub fn detail(id: Option<&str>) -> (body: String)
    ensures
        body@ == detail_text(
            match id {
                Some(id) => id@,
                None => Seq::empty(),
            },
        ),
{
    let mut body = String::from_str("Details for book ");
    match id {
        Some(id) => {
            body.append(id);
        },
        None => {
            assert(body@ + Seq::<char>::empty() == body@);
        },
    }
    body
}

/// Reflects the two required fields of a decoded body back as text and
/// stores nothing; without both, the body is malformed.
pub fn create(title: Option<String>, genre: Option<String>) -> (outcome: Result<String, Failure>)
    ensures
        title.is_some() && genre.is_some() ==> outcome.is_ok() && outcome.unwrap()@
            == create_text(BookView { title: title.unwrap()@, genre: genre.unwrap()@ }),
        title.is_none() || genre.is_none() ==> outcome == Err::<String, Failure>(
            Failure::MalformedBody,
        ),
{
    match Book::bind(title, genre) {
        Ok(book) => {
            let mut body = String::from_str("Title: ");
            body.append(book.title.as_str());
            body.append(", Genre: ");
            body.append(book.genre.as_str());
            Ok(body)
        },
        Err(failure) => Err(failure),
    }
}

/// The fixed list of two books.
pub fn list() -> (books: Vec<Book>)
    ensures
        books@.len() == 2,
        books@[0]@ == (BookView {
            title: "What is so amazing about grace?"@,
            genre: "Religious"@,
        }),
        books@[1]@ == (BookView { title: "Memoir"@, genre: "Biography"@ }),
{
    let mut books: Vec<Book> = Vec::new();
    books.push(
        Book {
            title: String::from_str("What is so amazing about grace?"),
            genre: String::from_str("Religious"),
        },
    );
    books.push(Book { title: String::from_str("Memoir"), genre: String::from_str("Biography") });
    books
}

} // verus!
