//! A small fixed catalog of books and authors, served read-only.

use vstd::prelude::*;

verus! {

/// A book of the catalog.
pub struct Book {
    /// The book's id: its position in the catalog.
    pub id: usize,
    /// The book's name.
    pub name: &'static str,
    /// The id of the book's author.
    pub author_id: usize,
}

/// An author of the catalog.
pub struct Author {
    /// The author's id: its position in the catalog.
    pub id: usize,
    /// The author's name.
    pub name: &'static str,
}

/// The catalog: books and their authors.
pub struct Library {
    /// The books of the catalog.
    pub books: Vec<Book>,
    /// The authors of the catalog.
    pub authors: Vec<Author>,
}

/// Describes the catalog queries.
pub struct QueryRoot;

impl Book {
    /// The book's id.
    pub fn id(&self) -> (r: usize)
        ensures
            r == self.id,
    {
        self.id
    }

    /// The book's name.
    pub fn name(&self) -> (r: &str)
        ensures
            r@ == self.name@,
    {
        self.name
    }

    /// The id of the book's author.
    pub fn author_id(&self) -> (r: usize)
        ensures
            r == self.author_id,
    {
        self.author_id
    }
}

impl Author {
    /// The author's id.
    pub fn id(&self) -> (r: usize)
        ensures
            r == self.id,
    {
        self.id
    }

    /// The author's name.
    pub fn name(&self) -> (r: &str)
        ensures
            r@ == self.name@,
    {
        self.name
    }
}

impl Library {
    /// The fixed catalog: each book's id is its position, and its author id
    /// names a position among the authors.
    pub fn new() -> (r: Self)
        ensures
            r.books@.len() == 2,
            r.authors@.len() == 2,
            forall|i: int| 0 <= i < r.books@.len() ==> (#[trigger] r.books@[i]).id == i,
            forall|i: int| 0 <= i < r.authors@.len() ==> (#[trigger] r.authors@[i]).id == i,
            forall|i: int|
                0 <= i < r.books@.len() ==> 0 <= (#[trigger] r.books@[i]).author_id
                    < r.authors@.len(),
            r.books@[0].name@ == "Lord of the Rings"@,
            r.books@[1].name@ == "Harry Potter and the Prizoner of Azkaban"@,
            r.authors@[0].name@ == "J. R. R. Tolkien"@,
            r.authors@[1].name@ == "J. K. Rowling"@,
    {
        let mut books: Vec<Book> = Vec::new();
        books.push(Book { id: 0, name: "Lord of the Rings", author_id: 0 });
        books.push(Book { id: 1, name: "Harry Potter and the Prizoner of Azkaban", author_id: 1 });
        let mut authors: Vec<Author> = Vec::new();
        authors.push(Author { id: 0, name: "J. R. R. Tolkien" });
        authors.push(Author { id: 1, name: "J. K. Rowling" });
        Library { books, authors }
    }

    /// All books, in catalog order.
    pub fn books(&self) -> (r: Vec<&Book>)
        ensures
            r@.len() == self.books@.len(),
            forall|i: int| 0 <= i < r@.len() ==> *(#[trigger] r@[i]) == self.books@[i],
    {
        let mut r: Vec<&Book> = Vec::new();
        let mut i: usize = 0;
        while i < self.books.len()
            invariant
                i <= self.books@.len(),
                r@.len() == i,
                forall|j: int| 0 <= j < i ==> *(#[trigger] r@[j]) == self.books@[j],
            decreases self.books@.len() - i,
        {
            r.push(&self.books[i]);
            i = i + 1;
        }
        r
    }

    /// All authors, in catalog order.
    pub fn authors(&self) -> (r: Vec<&Author>)
        ensures
            r@.len() == self.authors@.len(),
            forall|i: int| 0 <= i < r@.len() ==> *(#[trigger] r@[i]) == self.authors@[i],
    {
        let mut r: Vec<&Author> = Vec::new();
        let mut i: usize = 0;
        while i < self.authors.len()
            invariant
                i <= self.authors@.len(),
                r@.len() == i,
                forall|j: int| 0 <= j < i ==> *(#[trigger] r@[j]) == self.authors@[j],
            decreases self.authors@.len() - i,
        {
            r.push(&self.authors[i]);
            i = i + 1;
        }
        r
    }
}

impl QueryRoot {
    /// All books of the catalog.
    pub fn books<'a>(&self, library: &'a Library) -> (r: Vec<&'a Book>)
        ensures
            r@.len() == library.books@.len(),
            forall|i: int| 0 <= i < r@.len() ==> *(#[trigger] r@[i]) == library.books@[i],
    {
        library.books()
    }

    /// The book at an id.
    pub fn book<'a>(&self, library: &'a Library, id: usize) -> (r: &'a Book)
        requires
            id < library.books@.len(),
        ensures
            *r == library.books@[id as int],
    {
        &library.books[id]
    }

    /// All authors of the catalog.
    pub fn authors<'a>(&self, library: &'a Library) -> (r: Vec<&'a Author>)
        ensures
            r@.len() == library.authors@.len(),
            forall|i: int| 0 <= i < r@.len() ==> *(#[trigger] r@[i]) == library.authors@[i],
    {
        library.authors()
    }

    /// The author at an id.
    pub fn author<'a>(&self, library: &'a Library, id: usize) -> (r: &'a Author)
        requires
            id < library.authors@.len(),
        ensures
            *r == library.authors@[id as int],
    {
        &library.authors[id]
    }
}

} // verus!
