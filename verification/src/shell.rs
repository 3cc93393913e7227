//! The routes of the site and the file that each is rendered to.

use vstd::prelude::*;
use vstd::string::StringExecFns;
use crate::content::{DocPage, PageKey};

verus! {

/// A page of the site.
#[derive(Debug, Clone, PartialEq)]
pub enum Routes {
    Index,
    Post(String),
    BookSection(String),
    BookSubsection(String, String),
    NotFound,
}

/// A route as plain values.
pub enum Route {
    Index,
    Post(Seq<char>),
    BookSection(Seq<char>),
    BookSubsection(Seq<char>, Seq<char>),
    NotFound,
}

impl View for Routes {
    type V = Route;

    open spec fn view(&self) -> Route {
        match self {
            Routes::Index => Route::Index,
            Routes::Post(id) => Route::Post(id@),
            Routes::BookSection(section) => Route::BookSection(section@),
            Routes::BookSubsection(section, doc) => Route::BookSubsection(section@, doc@),
            Routes::NotFound => Route::NotFound,
        }
    }
}

/// The file that a route is rendered to, relative to the output root.
pub open spec fn output_path(route: Route) -> Seq<char> {
    match route {
        Route::Index => "/index.html"@,
        Route::NotFound => "/404.html"@,
        Route::Post(id) => "/post/"@ + id + ".html"@,
        Route::BookSection(section) => "/book/"@ + section + ".html"@,
        Route::BookSubsection(section, doc) => "/book/"@ + section + "/"@ + doc + ".html"@,
    }
}

/// The route of a documentation page.
pub open spec fn page_route(page: PageKey) -> Route {
    match page.1 {
        Some(doc) => Route::BookSubsection(page.0, doc),
        None => Route::BookSection(page.0),
    }
}

/// Whether the route is a page of the book.
pub open spec fn is_book(route: Route) -> bool {
    route is BookSection || route is BookSubsection
}

impl Routes {
    /// The file that the route is rendered to, relative to the output root.
    pub fn output_path(&self) -> (path: String)
        ensures
            path@ == output_path(self@),
    {
        let mut path = String::new();
        match self {
            Routes::Index => {
                path.append("/index.html");
                assert(path@ =~= output_path(self@));
            },
            Routes::NotFound => {
                path.append("/404.html");
                assert(path@ =~= output_path(self@));
            },
            Routes::Post(id) => {
                path.append("/post/");
                path.append(id.as_str());
                path.append(".html");
                assert(path@ =~= output_path(self@));
            },
            Routes::BookSection(section) => {
                path.append("/book/");
                path.append(section.as_str());
                path.append(".html");
                assert(path@ =~= output_path(self@));
            },
            Routes::BookSubsection(section, doc) => {
                path.append("/book/");
                path.append(section.as_str());
                path.append("/");
                path.append(doc.as_str());
                path.append(".html");
                assert(path@ =~= output_path(self@));
            },
        }
        path
    }

    /// The route of the documentation page `page`.
    pub fn of_page(page: &DocPage) -> (route: Routes)
        ensures
            route@ == page_route(page@),
    {
        match page.subsection() {
            Some(doc) => Routes::BookSubsection(page.section().to_owned(), doc.to_owned()),
            None => Routes::BookSection(page.section().to_owned()),
        }
    }

    /// Whether the route is the page that stands for every unknown address.
    pub fn is_not_found(&self) -> (r: bool)
        ensures
            r == (self@ is NotFound),
    {
        match self {
            Routes::NotFound => true,
            _ => false,
        }
    }

    /// Whether the route is a page of the book.
    pub fn is_book(&self) -> (r: bool)
        ensures
            r == is_book(self@),
    {
        match self {
            Routes::BookSection(_) => true,
            Routes::BookSubsection(_, _) => true,
            _ => false,
        }
    }
}

} // verus!
