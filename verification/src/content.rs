//! The content model: front matter, document keys, headings and parsed documents.

use vstd::prelude::*;
use vstd::string::StringExecFns;
use crate::date::{date_fault_text, parse_date, DateError};

pub use crate::date::Date;
pub use crate::repository::{generate_sitemap_xml, get_static_paths};

verus! {

/// Front matter of a blog post.
#[derive(Debug, Clone)]
pub struct PostFrontmatter {
    pub title: String,
    pub description: String,
    pub date: Date,
}

/// Front matter of a documentation page.
#[derive(Debug, Clone)]
pub struct DocFrontmatter {
    /// The title of the page.
    pub title: String,
    /// The subsections of the page, in the order of the table of contents.
    pub subsections: Vec<String>,
}

/// The top-level sections of the book, in the order of the table of contents.
#[derive(Debug, Clone)]
pub struct SectionsJson {
    pub sections: Vec<String>,
}

/// A heading of a document: its anchor, its text and its level.
#[derive(Debug, Clone)]
pub struct Heading {
    pub id: String,
    pub text: String,
    pub level: u32,
}

/// A parsed document: front matter `F`, the headings in document order, and
/// the body `B`, which this library carries and never reads.
#[derive(Debug, Clone)]
pub struct Parsed<F, B> {
    pub front_matter: F,
    pub headings: Vec<Heading>,
    pub body: B,
}

/// The characters of each text of a list.
pub open spec fn texts(v: Seq<String>) -> Seq<Seq<char>> {
    v.map_values(|s: String| s@)
}

/// The characters of an optional text.
pub open spec fn opt_text(o: Option<String>) -> Option<Seq<char>> {
    match o {
        Some(s) => Some(s@),
        None => None,
    }
}

/// The key of a documentation page: its section and, for a subsection, its name.
#[derive(Debug, Clone, PartialEq, Eq, Hash)]
pub struct DocPage(String, Option<String>);

/// A page key as plain values: the section and, for a subsection, its name.
pub type PageKey = (Seq<char>, Option<Seq<char>>);

impl View for DocPage {
    type V = PageKey;

    closed spec fn view(&self) -> PageKey {
        (self.0@, opt_text(self.1))
    }
}

impl DocPage {
    /// The key of the page of `section` or, with `doc`, of its subsection `doc`.
    pub fn new(section: String, doc: Option<String>) -> (page: Self)
        ensures
            page@ == (section@, opt_text(doc)),
    {
        Self(section, doc)
    }

    /// The section of the page.
    pub fn section(&self) -> (s: &str)
        ensures
            s@ == self@.0,
    {
        self.0.as_str()
    }

    /// The name of the subsection, where the page is one.
    pub fn subsection(&self) -> (s: Option<&str>)
        ensures
            s is Some == self@.1 is Some,
            s is Some ==> s.unwrap()@ == self@.1.unwrap(),
    {
        match &self.1 {
            Some(doc) => Some(doc.as_str()),
            None => None,
        }
    }

    /// Whether the two keys name the same page.
    pub fn same_page(&self, other: &DocPage) -> (r: bool)
        ensures
            r == (self@ == other@),
    {
        if self.0 != other.0 {
            return false;
        }
        match (&self.1, &other.1) {
            (Some(a), Some(b)) => *a == *b,
            (None, None) => true,
            _ => false,
        }
    }
}

/// The table of contents of the book.
#[derive(Debug, Clone)]
pub struct BookIndex {
    pub sections: Vec<BookSection>,
}

/// A top-level section of the book with its subsections in order.
#[derive(Debug, Clone)]
pub struct BookSection {
    pub title: String,
    pub subsections: Vec<BookItem>,
    pub path: DocPage,
}

/// A subsection of the book.
#[derive(Debug, Clone)]
pub struct BookItem {
    pub title: String,
    pub path: DocPage,
}

/// A subsection of the book as plain values.
pub struct BookItemView {
    pub title: Seq<char>,
    pub path: PageKey,
}

/// A section of the book as plain values.
pub struct BookSectionView {
    pub title: Seq<char>,
    pub subsections: Seq<BookItemView>,
    pub path: PageKey,
}

/// The plain values of each item of a list.
pub open spec fn item_views(items: Seq<BookItem>) -> Seq<BookItemView> {
    items.map_values(|item: BookItem| item@)
}

/// The plain values of each section of a list.
pub open spec fn section_views(sections: Seq<BookSection>) -> Seq<BookSectionView> {
    sections.map_values(|section: BookSection| section@)
}

impl View for BookItem {
    type V = BookItemView;

    open spec fn view(&self) -> BookItemView {
        BookItemView { title: self.title@, path: self.path@ }
    }
}

impl View for BookSection {
    type V = BookSectionView;

    open spec fn view(&self) -> BookSectionView {
        BookSectionView {
            title: self.title@,
            subsections: item_views(self.subsections@),
            path: self.path@,
        }
    }
}

impl View for BookIndex {
    type V = Seq<BookSectionView>;

    open spec fn view(&self) -> Seq<BookSectionView> {
        section_views(self.sections@)
    }
}

/// Why the content cannot be published.
#[derive(Debug, Clone, PartialEq, Eq)]
pub enum ContentError {
    /// The table of contents names a page that the index does not hold.
    MissingDoc(DocPage),
    /// The page `subsection` of `section` declares subsections of its own.
    NestedSubsections { section: String, subsection: String },
    /// The date of the post `post` is not written as a date.
    InvalidDate { post: String, reason: DateError },
    /// A document was supplied though none was asked for.
    Unrequested,
}

/// A content error as plain values.
pub enum ContentFault {
    MissingDoc(PageKey),
    NestedSubsections(Seq<char>, Seq<char>),
    InvalidDate(Seq<char>, DateError),
    Unrequested,
}

impl View for ContentError {
    type V = ContentFault;

    open spec fn view(&self) -> ContentFault {
        match self {
            ContentError::MissingDoc(page) => ContentFault::MissingDoc(page@),
            ContentError::NestedSubsections { section, subsection } => {
                ContentFault::NestedSubsections(section@, subsection@)
            },
            ContentError::InvalidDate { post, reason } => ContentFault::InvalidDate(post@, *reason),
            ContentError::Unrequested => ContentFault::Unrequested,
        }
    }
}

/// A page key as a reader writes it: `section`, or `section/subsection`.
pub open spec fn page_name(page: PageKey) -> Seq<char> {
    match page.1 {
        Some(doc) => page.0 + "/"@ + doc,
        None => page.0,
    }
}

/// The message of a content error. It names the page or the post at fault.
pub open spec fn fault_message(fault: ContentFault) -> Seq<char> {
    match fault {
        ContentFault::MissingDoc(page) => "failed to get doc `"@ + page_name(page) + "`"@,
        ContentFault::NestedSubsections(section, subsection) => {
            "Subsections cannot have subsections: `"@ + section + "/"@ + subsection + "`"@
        },
        ContentFault::InvalidDate(post, reason) => {
            "invalid date in post `"@ + post + "`: "@ + date_fault_text(reason)
        },
        ContentFault::Unrequested => "no document was asked for"@,
    }
}

impl PostFrontmatter {
    /// The front matter of the post `post` from its fields as they were
    /// read, the date still as text. Fails where the text is not a date.
    pub fn from_fields(post: &str, title: String, description: String, date: &str) -> (r: Result<
        PostFrontmatter,
        ContentError,
    >)
        ensures
            match parse_date(date@) {
                Ok(d) => r == Ok::<PostFrontmatter, ContentError>(
                    PostFrontmatter { title, description, date: d },
                ),
                Err(reason) => r is Err && r->Err_0@ == ContentFault::InvalidDate(post@, reason),
            },
    {
        match Date::from_str(date) {
            Ok(d) => Ok(PostFrontmatter { title, description, date: d }),
            Err(reason) => Err(ContentError::InvalidDate { post: post.to_owned(), reason }),
        }
    }
}

impl ContentError {
    /// The message of the error. It names the page or the post at fault.
    pub fn message(&self) -> (text: String)
        ensures
            text@ == fault_message(self@),
    {
        let mut text = String::new();
        match self {
            ContentError::MissingDoc(page) => {
                text.append("failed to get doc `");
                text.append(page.section());
                match page.subsection() {
                    Some(doc) => {
                        text.append("/");
                        text.append(doc);
                    },
                    None => {},
                }
                text.append("`");
                assert(text@ =~= fault_message(self@));
            },
            ContentError::NestedSubsections { section, subsection } => {
                text.append("Subsections cannot have subsections: `");
                text.append(section.as_str());
                text.append("/");
                text.append(subsection.as_str());
                text.append("`");
                assert(text@ =~= fault_message(self@));
            },
            ContentError::InvalidDate { post, reason } => {
                text.append("invalid date in post `");
                text.append(post.as_str());
                text.append("`: ");
                text.append(reason.message());
                assert(text@ =~= fault_message(self@));
            },
            ContentError::Unrequested => {
                text.append("no document was asked for");
                assert(text@ =~= fault_message(self@));
            },
        }
        text
    }
}

} // verus!
