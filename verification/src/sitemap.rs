//! The sitemap: one location for each route that search engines may index.

use vstd::prelude::*;
use vstd::string::StringExecFns;
use crate::shell::{output_path, Route, Routes};
use crate::text::{chars_of, ends_with, has_suffix};

verus! {

/// A route table as plain values: each route with the file it is rendered to.
pub type RouteTable = Seq<(Route, Seq<char>)>;

/// The plain values of a route table.
pub open spec fn table_view(table: Seq<(Routes, String)>) -> RouteTable {
    table.map_values(|e: (Routes, String)| (e.0@, e.1@))
}

/// The address under which the site is published.
pub open spec fn base_url() -> Seq<char> {
    "https://sycamore-rs.netlify.app"@
}

/// `path` without its `.html` suffix.
pub open spec fn strip_html(path: Seq<char>) -> Seq<char>
    recommends
        ends_with(path, ".html"@),
{
    path.take(path.len() - ".html"@.len())
}

/// Whether the last segment of `path` is `index`: the path is that word, or
/// ends with it right after a slash.
pub open spec fn ends_in_index(path: Seq<char>) -> bool {
    ends_with(path, "index"@) && (path.len() == "index"@.len() || path[path.len() - "index"@.len()
        - 1] == '/')
}

/// `path` without a last segment `index`; the slash before it stays.
pub open spec fn trim_index(path: Seq<char>) -> Seq<char> {
    if ends_in_index(path) {
        path.take(path.len() - "index"@.len())
    } else {
        path
    }
}

/// The absolute location of the page that is rendered to `path`.
pub open spec fn location(path: Seq<char>) -> Seq<char>
    recommends
        ends_with(path, ".html"@),
{
    base_url() + trim_index(strip_html(path))
}

/// Whether a route is listed in the sitemap: every route but `NotFound`.
pub open spec fn indexable(entry: (Route, Seq<char>)) -> bool {
    !(entry.0 is NotFound)
}

/// The locations of the sitemap: one for each indexable route, in the order of the table.
pub open spec fn sitemap_locations(table: RouteTable) -> Seq<Seq<char>>
    decreases table.len(),
{
    if table.len() == 0 {
        Seq::empty()
    } else if indexable(table.last()) {
        sitemap_locations(table.drop_last()).push(location(table.last().1))
    } else {
        sitemap_locations(table.drop_last())
    }
}

/// What stands for the character `c` in the text of an XML element: an
/// entity for each of the five characters of markup, else the character itself.
pub open spec fn escape_char(c: char) -> Seq<char> {
    if c == '&' {
        "&amp;"@
    } else if c == '<' {
        "&lt;"@
    } else if c == '>' {
        "&gt;"@
    } else if c == '"' {
        "&quot;"@
    } else if c == '\'' {
        "&apos;"@
    } else {
        seq![c]
    }
}

/// `text` as the text of an XML element.
pub open spec fn xml_escape(text: Seq<char>) -> Seq<char>
    decreases text.len(),
{
    if text.len() == 0 {
        Seq::empty()
    } else {
        xml_escape(text.drop_last()) + escape_char(text.last())
    }
}

/// Whether `c` is one of the five characters of markup.
pub open spec fn is_markup(c: char) -> bool {
    c == '&' || c == '<' || c == '>' || c == '"' || c == '\''
}

/// Whether one of the five entities begins at position `i` of `text`.
pub open spec fn entity_at(text: Seq<char>, i: int) -> bool {
    ||| has_at(text, i, "&amp;"@)
    ||| has_at(text, i, "&lt;"@)
    ||| has_at(text, i, "&gt;"@)
    ||| has_at(text, i, "&quot;"@)
    ||| has_at(text, i, "&apos;"@)
}

/// Whether `part` stands in `text` from position `i` on.
pub open spec fn has_at(text: Seq<char>, i: int, part: Seq<char>) -> bool {
    0 <= i && i + part.len() <= text.len() && text.subrange(i, i + part.len()) == part
}

/// The `url` element of one location.
pub open spec fn url_element(loc: Seq<char>) -> Seq<char> {
    "<url><loc>"@ + xml_escape(loc) + "</loc></url>"@
}

/// The `url` elements of `locs`, one after the other.
pub open spec fn url_elements(locs: Seq<Seq<char>>) -> Seq<char>
    decreases locs.len(),
{
    if locs.len() == 0 {
        Seq::empty()
    } else {
        url_elements(locs.drop_last()) + url_element(locs.last())
    }
}

/// The opening of a sitemap document.
pub open spec fn sitemap_head() -> Seq<char> {
    "<?xml version=\"1.0\" encoding=\"UTF-8\"?><urlset xmlns=\"http://www.sitemaps.org/schemas/sitemap/0.9\">"@
}

/// The sitemap document of a route table.
pub open spec fn sitemap_document(table: RouteTable) -> Seq<char> {
    sitemap_head() + url_elements(sitemap_locations(table)) + "</urlset>"@
}

/// Whether every indexable route of the table is rendered to an `.html` file.
pub open spec fn html_paths(table: RouteTable) -> bool {
    forall|i: int| 0 <= i < table.len() && indexable(#[trigger] table[i]) ==> ends_with(table[i].1, ".html"@)
}

/// The locations of a table in two parts are those of the first part, then
/// those of the second. With the next law this says that each indexable
/// route gives one location, and `NotFound` none.
pub proof fn lemma_sitemap_locations_concat(first: RouteTable, second: RouteTable)
    ensures
        sitemap_locations(first + second) == sitemap_locations(first) + sitemap_locations(second),
    decreases second.len(),
{
    if second.len() == 0 {
        assert(first + second =~= first);
        assert(sitemap_locations(first) + sitemap_locations(second) =~= sitemap_locations(first));
    } else {
        lemma_sitemap_locations_concat(first, second.drop_last());
        assert((first + second).drop_last() =~= first + second.drop_last());
        assert((first + second).last() == second.last());
        if indexable(second.last()) {
            assert(sitemap_locations(first + second) =~= sitemap_locations(first)
                + sitemap_locations(second));
        }
    }
}

/// A table of one route has the location of that route, or none where the route is `NotFound`.
pub proof fn lemma_sitemap_locations_single(entry: (Route, Seq<char>))
    ensures
        sitemap_locations(seq![entry]) == if entry.0 is NotFound {
            Seq::<Seq<char>>::empty()
        } else {
            seq![location(entry.1)]
        },
{
    let table = seq![entry];
    assert(table.drop_last() =~= Seq::empty());
    assert(table.last() == entry);
    assert(sitemap_locations(table.drop_last()) =~= Seq::empty());
    if indexable(entry) {
        assert(sitemap_locations(table) =~= seq![location(entry.1)]);
    }
}

/// A text without characters of markup stands for itself.
pub proof fn lemma_escape_plain(text: Seq<char>)
    requires
        forall|i: int| 0 <= i < text.len() ==> !is_markup(#[trigger] text[i]),
    ensures
        xml_escape(text) == text,
    decreases text.len(),
{
    if text.len() > 0 {
        lemma_escape_plain(text.drop_last());
        assert(text.drop_last().push(text.last()) =~= text);
        assert(xml_escape(text) =~= text);
    }
}

/// An escaped text holds no markup: none of `<`, `>` and the two quotes,
/// and an ampersand only where an entity begins.
pub proof fn lemma_escape_safe(text: Seq<char>)
    ensures
        forall|i: int|
            0 <= i < xml_escape(text).len() ==> {
                let c = #[trigger] xml_escape(text)[i];
                &&& c != '<' && c != '>' && c != '"' && c != '\''
                &&& c == '&' ==> entity_at(xml_escape(text), i)
            },
    decreases text.len(),
{
    reveal_strlit("&amp;");
    reveal_strlit("&lt;");
    reveal_strlit("&gt;");
    reveal_strlit("&quot;");
    reveal_strlit("&apos;");
    if text.len() > 0 {
        let head = xml_escape(text.drop_last());
        let tail = escape_char(text.last());
        let all = xml_escape(text);
        lemma_escape_safe(text.drop_last());
        assert(all == head + tail);
        assert forall|i: int| 0 <= i < all.len() implies {
            let c = #[trigger] all[i];
            &&& c != '<' && c != '>' && c != '"' && c != '\''
            &&& c == '&' ==> entity_at(all, i)
        } by {
            if i < head.len() {
                assert(all[i] == head[i]);
                if head[i] == '&' {
                    assert(entity_at(head, i));
                    lemma_has_at_prefix(head, tail, i, "&amp;"@);
                    lemma_has_at_prefix(head, tail, i, "&lt;"@);
                    lemma_has_at_prefix(head, tail, i, "&gt;"@);
                    lemma_has_at_prefix(head, tail, i, "&quot;"@);
                    lemma_has_at_prefix(head, tail, i, "&apos;"@);
                }
            } else {
                assert(all[i] == tail[i - head.len()]);
                if all[i] == '&' {
                    assert(i == head.len());
                    assert(all.subrange(i, i + tail.len()) =~= tail);
                }
            }
        }
    }
}

proof fn lemma_has_at_prefix(head: Seq<char>, tail: Seq<char>, i: int, part: Seq<char>)
    ensures
        has_at(head, i, part) ==> has_at(head + tail, i, part),
{
    if has_at(head, i, part) {
        assert((head + tail).subrange(i, i + part.len()) =~= head.subrange(i, i + part.len()));
    }
}

/// Appends `chars` as the text of an XML element.
fn push_escaped(out: &mut String, chars: &Vec<char>)
    ensures
        final(out)@ == old(out)@ + xml_escape(chars@),
{
    assert(chars@.take(0) =~= Seq::empty());
    let mut i: usize = 0;
    while i < chars.len()
        invariant
            i <= chars.len(),
            out@ == old(out)@ + xml_escape(chars@.take(i as int)),
        decreases chars.len() - i,
    {
        let c = chars[i];
        let ghost before = out@;
        assert(chars@.take(i + 1).drop_last() =~= chars@.take(i as int));
        assert(chars@.take(i + 1).last() == c);
        if c == '&' {
            out.append("&amp;");
        } else if c == '<' {
            out.append("&lt;");
        } else if c == '>' {
            out.append("&gt;");
        } else if c == '"' {
            out.append("&quot;");
        } else if c == '\'' {
            out.append("&apos;");
        } else {
            out.push(c);
            assert(out@ =~= before + seq![c]);
        }
        assert(out@ == before + escape_char(c));
        assert(out@ =~= old(out)@ + xml_escape(chars@.take(i + 1)));
        i += 1;
    }
    assert(chars@.take(chars.len() as int) =~= chars@);
}

/// Appends the location of the page rendered to `path`, as the text of an XML element.
fn push_location(out: &mut String, path: &str)
    requires
        ends_with(path@, ".html"@),
    ensures
        final(out)@ == old(out)@ + xml_escape(location(path@)),
{
    let html = chars_of(".html");
    let index = chars_of("index");
    let mut stem = chars_of(path);
    stem.truncate(stem.len() - html.len());
    assert(stem@ =~= strip_html(path@));
    if has_suffix(&stem, &index) && (stem.len() == index.len() || stem[stem.len() - index.len() - 1]
        == '/') {
        stem.truncate(stem.len() - index.len());
    }
    assert(stem@ =~= trim_index(strip_html(path@)));
    let mut loc = chars_of("https://sycamore-rs.netlify.app");
    loc.append(&mut stem);
    push_escaped(out, &loc);
}

/// Writes the sitemap of a route table. Every indexable route must be
/// rendered to an `.html` file.
pub fn sitemap_xml(table: &Vec<(Routes, String)>) -> (xml: String)
    requires
        html_paths(table_view(table@)),
    ensures
        xml@ == sitemap_document(table_view(table@)),
{
    let ghost rows = table_view(table@);
    let mut xml = String::new();
    xml.append(
        "<?xml version=\"1.0\" encoding=\"UTF-8\"?><urlset xmlns=\"http://www.sitemaps.org/schemas/sitemap/0.9\">",
    );
    assert(rows.take(0) =~= Seq::empty());
    let mut i: usize = 0;
    while i < table.len()
        invariant
            i <= table.len(),
            rows == table_view(table@),
            html_paths(rows),
            xml@ == sitemap_head() + url_elements(sitemap_locations(rows.take(i as int))),
        decreases table.len() - i,
    {
        let ghost before = rows.take(i as int);
        let ghost after = rows.take(i + 1);
        assert(after.drop_last() =~= before);
        assert(after.last() == rows[i as int]);
        assert(rows[i as int] == (table@[i as int].0@, table@[i as int].1@));
        if !table[i].0.is_not_found() {
            xml.append("<url><loc>");
            push_location(&mut xml, table[i].1.as_str());
            xml.append("</loc></url>");
            proof {
                let loc = location(rows[i as int].1);
                assert(sitemap_locations(after) == sitemap_locations(before).push(loc));
                assert(sitemap_locations(after).drop_last() =~= sitemap_locations(before));
                assert(xml@ =~= sitemap_head() + url_elements(sitemap_locations(after)));
            }
        } else {
            assert(sitemap_locations(after) == sitemap_locations(before));
        }
        i += 1;
    }
    assert(rows.take(table.len() as int) =~= rows);
    xml.append("</urlset>");
    xml
}

/// Every route is rendered to an `.html` file.
pub proof fn lemma_output_path_html(route: Route)
    ensures
        ends_with(output_path(route), ".html"@),
{
    reveal_strlit(".html");
    reveal_strlit("/index.html");
    reveal_strlit("/404.html");
    let html = ".html"@;
    match route {
        Route::Index => {
            assert("/index.html"@.skip(6) =~= html);
        },
        Route::NotFound => {
            assert("/404.html"@.skip(4) =~= html);
        },
        Route::Post(id) => {
            let p = "/post/"@ + id;
            assert((p + html).skip(p.len() as int) =~= html);
        },
        Route::BookSection(section) => {
            let p = "/book/"@ + section;
            assert((p + html).skip(p.len() as int) =~= html);
        },
        Route::BookSubsection(section, doc) => {
            let p = "/book/"@ + section + "/"@ + doc;
            assert((p + html).skip(p.len() as int) =~= html);
        },
    }
}

} // verus!
