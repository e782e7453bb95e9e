//! The executable verse index.
//!
//! Books are kept in a vector in the order in which the corpus first names them, each
//! with its chapters in a hash map from chapter number to a hash map from verse number
//! to text. No two books of an index have the same name.
use crate::corpus::Verse;
use crate::model::{book_with_verse, well_formed, with_verse, BookModel, ChapterModel, IndexModel};
use std::collections::HashMap;
use vstd::prelude::*;

verus! {

broadcast use vstd::std_specs::hash::group_hash_axioms;

/// What a hash map of verses holds, as a chapter of the model.
pub open spec fn chapter_model(verses: HashMap<u32, String>) -> ChapterModel {
    verses@.map_values(|text: String| text@)
}

/// What a hash map of chapters holds, as a book of the model.
pub open spec fn book_model(chapters: HashMap<u32, HashMap<u32, String>>) -> BookModel {
    chapters@.map_values(|verses: HashMap<u32, String>| chapter_model(verses))
}

/// One book of an index: its name and its chapters.
#[derive(Debug)]
pub struct Book {
    name: String,
    chapters: HashMap<u32, HashMap<u32, String>>,
}

impl Book {
    /// The name of the book.
    pub closed spec fn title(&self) -> Seq<char> {
        self.name@
    }

    /// The chapters of the book.
    pub closed spec fn content(&self) -> BookModel {
        book_model(self.chapters)
    }

    /// The name of the book.
    pub fn name(&self) -> (name: &String)
        ensures
            name@ == self.title(),
    {
        &self.name
    }

    /// The chapters of the book.
    pub fn chapters(&self) -> (chapters: &HashMap<u32, HashMap<u32, String>>)
        ensures
            book_model(*chapters) == self.content(),
    {
        &self.chapters
    }
}

impl Clone for Book {
    /// A copy with the same name and the same chapters.
    fn clone(&self) -> (copy: Self)
        ensures
            copy.title() == self.title(),
            copy.content() == self.content(),
    {
        Book { name: self.name.clone(), chapters: self.chapters.clone() }
    }
}

/// Whether a book named `title` is among `books`.
pub closed spec fn holds_title(books: Seq<Book>, title: Seq<char>) -> bool {
    exists|i: int| 0 <= i < books.len() && (#[trigger] books[i]).title() == title
}

/// The position of a book named `title` among `books`.
pub closed spec fn position_of(books: Seq<Book>, title: Seq<char>) -> int {
    choose|i: int| 0 <= i < books.len() && (#[trigger] books[i]).title() == title
}

/// Whether no two of the books have the same name.
pub closed spec fn distinct_titles(books: Seq<Book>) -> bool {
    forall|i: int, j: int|
        0 <= i < j < books.len() ==> (#[trigger] books[i]).title() != (#[trigger] books[j]).title()
}

/// What the books hold, as an index of the model.
pub closed spec fn index_model(books: Seq<Book>) -> IndexModel {
    Map::new(
        |title: Seq<char>| holds_title(books, title),
        |title: Seq<char>| books[position_of(books, title)].content(),
    )
}

/// Among books with distinct names each book is found under its own name.
pub proof fn lemma_index_model_entry(books: Seq<Book>, i: int)
    requires
        distinct_titles(books),
        0 <= i < books.len(),
    ensures
        index_model(books).contains_key(books[i].title()),
        index_model(books)[books[i].title()] == books[i].content(),
{
    assert(holds_title(books, books[i].title()));
}

/// Among books with distinct names, books at different places have different names.
pub proof fn lemma_distinct_titles(books: Seq<Book>, i: int, j: int)
    requires
        distinct_titles(books),
        0 <= i < books.len(),
        0 <= j < books.len(),
        i != j,
    ensures
        books[i].title() != books[j].title(),
{
    if i < j {
        assert(books[i].title() != books[j].title());
    } else {
        assert(books[j].title() != books[i].title());
    }
}

/// Every name in the model is the name of one of the books.
pub proof fn lemma_index_model_key(books: Seq<Book>, title: Seq<char>) -> (i: int)
    requires
        index_model(books).contains_key(title),
    ensures
        0 <= i < books.len(),
        books[i].title() == title,
{
    position_of(books, title)
}

/// A name that none of the books has is not in the model.
pub proof fn lemma_index_model_absent(books: Seq<Book>, title: Seq<char>)
    requires
        forall|i: int| 0 <= i < books.len() ==> (#[trigger] books[i]).title() != title,
    ensures
        !index_model(books).contains_key(title),
{
}

/// Where each name is the name of the book at the same place, among books with
/// distinct names, the names are those of the index, each once.
pub proof fn lemma_titles(books: Seq<Book>, names: Seq<Seq<char>>)
    requires
        distinct_titles(books),
        names.len() == books.len(),
        forall|j: int| 0 <= j < books.len() ==> #[trigger] names[j] == books[j].title(),
    ensures
        names.to_set() == index_model(books).dom(),
        names.no_duplicates(),
{
    assert forall|i: int, j: int|
        0 <= i < names.len() && 0 <= j < names.len() && i != j implies names[i] != names[j] by {
        lemma_distinct_titles(books, i, j);
    }
    assert forall|name: Seq<char>| names.to_set().contains(name) == index_model(
        books,
    ).dom().contains(name) by {
        if names.contains(name) {
            let j = choose|j: int| 0 <= j < names.len() && names[j] == name;
            lemma_index_model_entry(books, j);
        }
        if index_model(books).contains_key(name) {
            let j = lemma_index_model_key(books, name);
            assert(names[j] == name);
        }
    }
    assert(names.to_set() =~= index_model(books).dom());
}

/// No books make an empty index.
pub proof fn lemma_index_model_empty()
    ensures
        distinct_titles(Seq::<Book>::empty()),
        index_model(Seq::<Book>::empty()) == Map::<Seq<char>, BookModel>::empty(),
{
    assert(index_model(Seq::<Book>::empty()) =~= Map::<Seq<char>, BookModel>::empty());
}

/// Enters one verse into the chapters of a book.
fn enter_into_book(
    chapters: &mut HashMap<u32, HashMap<u32, String>>,
    chapter: u32,
    verse: u32,
    text: String,
)
    ensures
        book_model(*final(chapters)) == book_with_verse(
            book_model(*old(chapters)),
            chapter,
            verse,
            text@,
        ),
{
    let ghost target = book_with_verse(book_model(*old(chapters)), chapter, verse, text@);
    let mut verses: HashMap<u32, String> = match chapters.remove(&chapter) {
        Some(held) => held,
        None => HashMap::new(),
    };
    let ghost before = chapter_model(verses);
    proof {
        if old(chapters)@.contains_key(chapter) {
            assert(before == book_model(*old(chapters))[chapter]);
        } else {
            assert(before == Map::<u32, Seq<char>>::empty());
        }
    }
    verses.insert(verse, text);
    proof {
        assert(chapter_model(verses) == before.insert(verse, text@));
        assert(target[chapter] == chapter_model(verses));
    }
    chapters.insert(chapter, verses);
    proof {
        assert(book_model(*chapters).dom() == target.dom());
        assert forall|key: u32| #[trigger] target.contains_key(key) implies book_model(
            *chapters,
        )[key] == target[key] by {
            if key != chapter {
                assert(chapters@[key] == old(chapters)@[key]);
            }
        }
        assert(book_model(*chapters) == target);
    }
}

/// The position of the book named `title`, if one of the books has that name.
fn find_book(books: &Vec<Book>, title: &String) -> (found: Option<usize>)
    ensures
        match found {
            Some(i) => i < books.len() && books[i as int].title() == title@,
            None => forall|i: int| 0 <= i < books.len() ==> (#[trigger] books[i]).title() != title@,
        },
{
    let mut i: usize = 0;
    while i < books.len()
        invariant
            i <= books.len(),
            forall|j: int| 0 <= j < i ==> (#[trigger] books[j]).title() != title@,
        decreases books.len() - i,
    {
        if books[i].name == *title {
            return Some(i);
        }
        i += 1;
    }
    None
}

/// Changing the chapters of one book changes what the model holds under its name
/// and nothing else.
proof fn lemma_index_model_changed(before: Seq<Book>, after: Seq<Book>, at: int)
    requires
        distinct_titles(before),
        0 <= at < before.len(),
        after.len() == before.len(),
        after[at].title() == before[at].title(),
        forall|j: int| 0 <= j < before.len() && j != at ==> #[trigger] after[j] == before[j],
    ensures
        distinct_titles(after),
        index_model(after) == index_model(before).insert(before[at].title(), after[at].content()),
{
    let target = index_model(before).insert(before[at].title(), after[at].content());
    assert forall|i: int, j: int| 0 <= i < j < after.len() implies (#[trigger] after[i]).title()
        != (#[trigger] after[j]).title() by {
        lemma_distinct_titles(before, i, j);
        assert(after[i].title() == before[i].title());
        assert(after[j].title() == before[j].title());
    }
    lemma_index_model_entry(after, at);
    assert forall|title: Seq<char>|
        target.contains_key(title) == index_model(after).contains_key(title) by {
        if index_model(after).contains_key(title) {
            let j = lemma_index_model_key(after, title);
            assert(after[j].title() == before[j].title());
            lemma_index_model_entry(before, j);
        }
        if index_model(before).contains_key(title) {
            let j = lemma_index_model_key(before, title);
            assert(after[j].title() == before[j].title());
            lemma_index_model_entry(after, j);
        }
    }
    assert forall|title: Seq<char>| #[trigger] target.contains_key(title) implies index_model(
        after,
    )[title] == target[title] by {
        let j = lemma_index_model_key(after, title);
        lemma_index_model_entry(after, j);
        if j != at {
            assert(after[j] == before[j]);
            lemma_index_model_entry(before, j);
        }
    }
    assert(index_model(after) =~= target);
}

/// A book under a new name, put at the end, is added to the model under its name.
proof fn lemma_index_model_pushed(before: Seq<Book>, book: Book)
    requires
        distinct_titles(before),
        !index_model(before).contains_key(book.title()),
    ensures
        distinct_titles(before.push(book)),
        index_model(before.push(book)) == index_model(before).insert(book.title(), book.content()),
{
    let after = before.push(book);
    let target = index_model(before).insert(book.title(), book.content());
    assert forall|i: int, j: int| 0 <= i < j < after.len() implies (#[trigger] after[i]).title()
        != (#[trigger] after[j]).title() by {
        if j < before.len() {
            lemma_distinct_titles(before, i, j);
        } else {
            lemma_index_model_entry(before, i);
        }
    }
    lemma_index_model_entry(after, after.len() - 1);
    assert forall|title: Seq<char>|
        target.contains_key(title) == index_model(after).contains_key(title) by {
        if index_model(after).contains_key(title) {
            let j = lemma_index_model_key(after, title);
            if j < before.len() {
                lemma_index_model_entry(before, j);
            }
        }
        if index_model(before).contains_key(title) {
            let j = lemma_index_model_key(before, title);
            lemma_index_model_entry(after, j);
        }
    }
    assert forall|title: Seq<char>| #[trigger] target.contains_key(title) implies index_model(
        after,
    )[title] == target[title] by {
        let j = lemma_index_model_key(after, title);
        lemma_index_model_entry(after, j);
        if j < before.len() {
            lemma_index_model_entry(before, j);
        }
    }
    assert(index_model(after) =~= target);
}

/// Enters one verse into the books: into the book of that name if there is one, else
/// into a new book at the end.
pub(crate) fn enter(books: &mut Vec<Book>, verse: Verse)
    requires
        distinct_titles(old(books)@),
    ensures
        distinct_titles(final(books)@),
        index_model(final(books)@) == with_verse(
            index_model(old(books)@),
            verse.book@,
            verse.chapter,
            verse.verse,
            verse.text@,
        ),
{
    let Verse { book, chapter, verse: number, text } = verse;
    match find_book(books, &book) {
        Some(i) => {
            let entry = &mut books[i];
            enter_into_book(&mut entry.chapters, chapter, number, text);
            proof {
                lemma_index_model_entry(old(books)@, i as int);
                lemma_index_model_changed(old(books)@, books@, i as int);
            }
        },
        None => {
            let mut chapters: HashMap<u32, HashMap<u32, String>> = HashMap::new();
            assert(book_model(chapters) == Map::<u32, ChapterModel>::empty());
            enter_into_book(&mut chapters, chapter, number, text);
            let entry = Book { name: book, chapters };
            proof {
                lemma_index_model_absent(books@, entry.title());
                lemma_index_model_pushed(books@, entry);
            }
            books.push(entry);
        },
    }
}

/// The verse index of one corpus. It is built once and never changed afterwards.
#[derive(Debug)]
pub struct VerseIndex {
    books: Vec<Book>,
}

impl View for VerseIndex {
    type V = IndexModel;

    closed spec fn view(&self) -> IndexModel {
        index_model(self.books@)
    }
}

impl VerseIndex {
    #[verifier::type_invariant]
    spec fn valid(self) -> bool {
        distinct_titles(self.books@) && well_formed(index_model(self.books@))
    }

    /// The index that holds the given books.
    pub(crate) fn from_books(books: Vec<Book>) -> (index: Self)
        requires
            distinct_titles(books@),
            well_formed(index_model(books@)),
        ensures
            index@ == index_model(books@),
    {
        VerseIndex { books }
    }

    /// The books of the index, in the order in which the corpus first names them.
    pub fn books(&self) -> (books: &Vec<Book>)
        ensures
            distinct_titles(books@),
            index_model(books@) == self@,
            well_formed(self@),
    {
        proof {
            use_type_invariant(self);
        }
        &self.books
    }

    /// Whether the index holds no book at all.
    pub fn is_empty(&self) -> (empty: bool)
        ensures
            empty == !(exists|book: Seq<char>| self@.contains_key(book)),
    {
        proof {
            use_type_invariant(self);
            if self.books.len() > 0 {
                lemma_index_model_entry(self.books@, 0);
                assert(self@.contains_key(self.books@[0].title()));
            } else {
                assert forall|book: Seq<char>| !self@.contains_key(book) by {
                    lemma_index_model_absent(self.books@, book);
                }
            }
        }
        self.books.len() == 0
    }

    /// The book of the given name, if the index holds one. The name is compared as it
    /// is: the caller lowers its case.
    pub fn book(&self, name: &str) -> (found: Option<&Book>)
        ensures
            well_formed(self@),
            match found {
                Some(book) => book.title() == name@ && self@.contains_key(name@) && self@[name@]
                    == book.content(),
                None => !self@.contains_key(name@),
            },
    {
        proof {
            use_type_invariant(self);
        }
        let title = name.to_owned();
        match find_book(&self.books, &title) {
            Some(i) => {
                proof {
                    lemma_index_model_entry(self.books@, i as int);
                }
                Some(&self.books[i])
            },
            None => {
                proof {
                    lemma_index_model_absent(self.books@, name@);
                }
                None
            },
        }
    }
}

/// Books that agree place by place in name and chapters make the same index.
proof fn lemma_same_books(first: Seq<Book>, second: Seq<Book>)
    requires
        distinct_titles(first),
        first.len() == second.len(),
        forall|i: int|
            0 <= i < first.len() ==> (#[trigger] second[i]).title() == first[i].title()
                && second[i].content() == first[i].content(),
    ensures
        distinct_titles(second),
        index_model(second) == index_model(first),
{
    assert forall|i: int, j: int| 0 <= i < j < second.len() implies (#[trigger] second[i]).title()
        != (#[trigger] second[j]).title() by {
        lemma_distinct_titles(first, i, j);
    }
    assert forall|title: Seq<char>|
        index_model(first).contains_key(title) == index_model(second).contains_key(title) by {
        if index_model(first).contains_key(title) {
            let i = lemma_index_model_key(first, title);
            lemma_index_model_entry(second, i);
        }
        if index_model(second).contains_key(title) {
            let i = lemma_index_model_key(second, title);
            lemma_index_model_entry(first, i);
        }
    }
    assert forall|title: Seq<char>| #[trigger]
        index_model(first).contains_key(title) implies index_model(first)[title] == index_model(
        second,
    )[title] by {
        let i = lemma_index_model_key(first, title);
        lemma_index_model_entry(first, i);
        lemma_index_model_entry(second, i);
    }
    assert(index_model(second) =~= index_model(first));
}

impl Clone for VerseIndex {
    /// A copy that holds the same books, chapters, verses and texts.
    fn clone(&self) -> (copy: Self)
        ensures
            copy@ == self@,
    {
        proof {
            use_type_invariant(self);
        }
        let mut books: Vec<Book> = Vec::new();
        let mut i: usize = 0;
        while i < self.books.len()
            invariant
                i <= self.books.len(),
                books.len() == i,
                forall|j: int|
                    0 <= j < i ==> (#[trigger] books@[j]).title() == self.books@[j].title()
                        && books@[j].content() == self.books@[j].content(),
            decreases self.books.len() - i,
        {
            books.push(self.books[i].clone());
            i += 1;
        }
        proof {
            lemma_same_books(self.books@, books@);
        }
        VerseIndex { books }
    }
}

} // verus!
