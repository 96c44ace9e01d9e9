//! OpenGraph, Twitter Card and document metadata of an HTML page.

use vstd::prelude::*;
use crate::text::{
    ascii_lower_chars, ascii_lower_seq, chars_of, equals_str, push_chars, push_str,
    string_from_chars, trim_chars, trim_ws,
};

verus! {

/// An optional string taken by its characters.
pub open spec fn opt_view(o: Option<String>) -> Option<Seq<char>> {
    match o {
        Some(s) => Some(s@),
        None => None,
    }
}

/// One row of attribute values taken by their characters.
pub open spec fn row_view(row: Vec<Option<String>>) -> Seq<Option<Seq<char>>> {
    row@.map_values(|o: Option<String>| opt_view(o))
}

/// Rows of attribute values taken by their characters.
pub open spec fn rows_view(r: Option<Vec<Vec<Option<String>>>>) -> Option<Seq<Seq<Option<Seq<char>>>>> {
    match r {
        Some(rows) => Some(rows@.map_values(|row: Vec<Option<String>>| row_view(row))),
        None => None,
    }
}

/// A list of strings taken by their characters.
pub open spec fn strings_view(v: Vec<String>) -> Seq<Seq<char>> {
    v@.map_values(|s: String| s@)
}

/// Text nodes per element taken by their characters.
pub open spec fn texts_view(r: Option<Vec<Vec<String>>>) -> Option<Seq<Seq<Seq<char>>>> {
    match r {
        Some(els) => Some(els@.map_values(|e: Vec<String>| strings_view(e))),
        None => None,
    }
}

/// For the HTML document `body` and the CSS selector `selector`: `None` when the
/// selector does not parse, else one row per matching element, in the order in which
/// the parsed tree stores its nodes,
/// holding the value of each attribute named in `attrs` (`None` where absent).
pub uninterp spec fn html_selected_attrs(
    body: Seq<char>,
    selector: Seq<char>,
    attrs: Seq<Seq<char>>,
) -> Option<Seq<Seq<Option<Seq<char>>>>>;

/// For the HTML document `body` and the CSS selector `selector`: `None` when the
/// selector does not parse, else, per matching element in the order in which the
/// parsed tree stores its nodes, its
/// descendant text nodes in order.
pub uninterp spec fn html_selected_texts(body: Seq<char>, selector: Seq<char>) -> Option<
    Seq<Seq<Seq<char>>>,
>;

/// `scraper::Selector::parse`, `scraper::Html::parse_document`, `Html::select` and
/// `Element::attr`: the attribute values of the elements that match `selector`.
/// The contract names the result and states that each row has one entry per
/// requested attribute, as the mapping below builds it; the HTML parsing and
/// selector matching are not restated.
#[verifier::external_body]
fn select_attributes(body: &str, selector: &str, attrs: &Vec<String>) -> (r: Option<
    Vec<Vec<Option<String>>>,
>)
    ensures
        rows_view(r) == html_selected_attrs(body@, selector@, strings_view(*attrs)),
        r matches Some(rows) ==> forall|i: int|
            0 <= i < rows@.len() ==> (#[trigger] rows@[i])@.len() == attrs@.len(),
{
    let sel = ::scraper::Selector::parse(selector).ok()?;
    let doc = ::scraper::Html::parse_document(body);
    let rows = doc.select(&sel).map(
        |e| attrs.iter().map(|a| e.value().attr(a).map(|v| v.to_string())).collect(),
    ).collect();
    Some(rows)
}

/// `scraper::Selector::parse`, `scraper::Html::parse_document`, `Html::select` and
/// `ElementRef::text`: the text nodes of each element that matches `selector`.
/// The contract names the result; the parsing and matching are not restated.
#[verifier::external_body]
fn select_texts(body: &str, selector: &str) -> (r: Option<Vec<Vec<String>>>)
    ensures
        texts_view(r) == html_selected_texts(body@, selector@),
{
    let sel = ::scraper::Selector::parse(selector).ok()?;
    let doc = ::scraper::Html::parse_document(body);
    Some(doc.select(&sel).map(|e| e.text().map(|t| t.to_string()).collect()).collect())
}

/// Extracted metadata taken by its characters.
pub struct PageMetadataView {
    pub url: Seq<char>,
    pub title: Option<Seq<char>>,
    pub description: Option<Seq<char>>,
    pub image_url: Option<Seq<char>>,
    pub site_name: Option<Seq<char>>,
}

/// Extracted OpenGraph, Twitter Card, and document metadata.
#[derive(Debug, Clone, Default, PartialEq, Eq)]
pub struct PageMetadata {
    pub url: String,
    pub title: Option<String>,
    pub description: Option<String>,
    pub image_url: Option<String>,
    pub site_name: Option<String>,
}

impl View for PageMetadata {
    type V = PageMetadataView;

    open spec fn view(&self) -> PageMetadataView {
        PageMetadataView {
            url: self.url@,
            title: opt_view(self.title),
            description: opt_view(self.description),
            image_url: opt_view(self.image_url),
            site_name: opt_view(self.site_name),
        }
    }
}

/// The selector of the tags read for metadata.
pub open spec fn meta_selector() -> Seq<char> {
    "meta[property], meta[name]"@
}

/// The attributes read from each tag: its property, its name and its content.
pub open spec fn meta_attrs() -> Seq<Seq<char>> {
    seq!["property"@, "name"@, "content"@]
}

/// The entry `i` of a row, `None` past its end.
pub open spec fn row_at(row: Seq<Option<Seq<char>>>, i: int) -> Option<Seq<char>> {
    if 0 <= i < row.len() {
        row[i]
    } else {
        None
    }
}

/// The key of a tag: its `property`, else its `name`, in ASCII lower case.
pub open spec fn meta_key(row: Seq<Option<Seq<char>>>) -> Option<Seq<char>> {
    match row_at(row, 0) {
        Some(p) => Some(ascii_lower_seq(p)),
        None => match row_at(row, 1) {
            Some(n) => Some(ascii_lower_seq(n)),
            None => None,
        },
    }
}

/// The content of a tag, trimmed, when it is not blank.
pub open spec fn meta_content(row: Seq<Option<Seq<char>>>) -> Option<Seq<char>> {
    match row_at(row, 2) {
        Some(c) => if trim_ws(c).len() > 0 {
            Some(trim_ws(c))
        } else {
            None
        },
        None => None,
    }
}

/// The metadata after one tag: the first tag with a known key and a non-blank
/// content fills each field, and later ones leave it alone.
pub open spec fn apply_meta(m: PageMetadataView, row: Seq<Option<Seq<char>>>) -> PageMetadataView {
    match (meta_key(row), meta_content(row)) {
        (Some(k), Some(c)) => if (k == "og:title"@ || k == "twitter:title"@) && m.title is None {
            PageMetadataView { title: Some(c), ..m }
        } else if (k == "og:description"@ || k == "twitter:description"@ || k == "description"@)
            && m.description is None {
            PageMetadataView { description: Some(c), ..m }
        } else if (k == "og:image"@ || k == "twitter:image"@ || k == "twitter:image:src"@)
            && m.image_url is None {
            PageMetadataView { image_url: Some(c), ..m }
        } else if k == "og:site_name"@ && m.site_name is None {
            PageMetadataView { site_name: Some(c), ..m }
        } else {
            m
        },
        _ => m,
    }
}

/// The metadata after the tags `rows`, in order.
pub open spec fn meta_fold(m: PageMetadataView, rows: Seq<Seq<Option<Seq<char>>>>) -> PageMetadataView
    decreases rows.len(),
{
    if rows.len() == 0 {
        m
    } else {
        apply_meta(meta_fold(m, rows.drop_last()), rows.last())
    }
}

/// Text pieces joined with single spaces.
pub open spec fn join_texts(parts: Seq<Seq<char>>) -> Seq<char>
    decreases parts.len(),
{
    if parts.len() == 0 {
        Seq::empty()
    } else if parts.len() == 1 {
        parts[0]
    } else {
        join_texts(parts.drop_last()) + seq![' '] + parts.last()
    }
}

/// When no title was found in the tags, the text of the first `<title>` element,
/// joined with spaces and trimmed, when it is not blank.
pub open spec fn title_fallback(m: PageMetadataView, titles: Option<Seq<Seq<Seq<char>>>>) -> PageMetadataView {
    match titles {
        Some(els) => if m.title is None && els.len() > 0 && trim_ws(join_texts(els[0])).len() > 0 {
            PageMetadataView { title: Some(trim_ws(join_texts(els[0]))), ..m }
        } else {
            m
        },
        None => m,
    }
}

/// A tag whose key (its `property`, else its `name`, in any case) is a known key of a
/// field, with non-blank content, fills that field with the trimmed content when the
/// field is still empty: `og:title` and `twitter:title` the title; `og:description`,
/// `twitter:description` and `description` the description; `og:image`,
/// `twitter:image` and `twitter:image:src` the image; `og:site_name` the site name.
pub proof fn law_known_keys_fill_their_field(
    m: PageMetadataView,
    row: Seq<Option<Seq<char>>>,
    key: Seq<char>,
    content: Seq<char>,
)
    requires
        row.len() == 3,
        row[0] == Some(key) || (row[0] is None && row[1] == Some(key)),
        row[2] == Some(content),
        trim_ws(content).len() > 0,
    ensures
        (ascii_lower_seq(key) == "og:title"@ || ascii_lower_seq(key) == "twitter:title"@)
            && m.title is None ==> apply_meta(m, row).title == Some(trim_ws(content)),
        (ascii_lower_seq(key) == "og:description"@ || ascii_lower_seq(key)
            == "twitter:description"@ || ascii_lower_seq(key) == "description"@)
            && m.description is None ==> apply_meta(m, row).description == Some(trim_ws(content)),
        (ascii_lower_seq(key) == "og:image"@ || ascii_lower_seq(key) == "twitter:image"@
            || ascii_lower_seq(key) == "twitter:image:src"@) && m.image_url is None
            ==> apply_meta(m, row).image_url == Some(trim_ws(content)),
        ascii_lower_seq(key) == "og:site_name"@ && m.site_name is None ==> apply_meta(
            m,
            row,
        ).site_name == Some(trim_ws(content)),
{
    reveal_strlit("og:title");
    reveal_strlit("twitter:title");
    reveal_strlit("og:description");
    reveal_strlit("twitter:description");
    reveal_strlit("description");
    reveal_strlit("og:image");
    reveal_strlit("twitter:image");
    reveal_strlit("twitter:image:src");
    reveal_strlit("og:site_name");
    let k = ascii_lower_seq(key);
    assert(meta_key(row) == Some(k));
    assert(meta_content(row) == Some(trim_ws(content)));
    if k == "twitter:image"@ || k == "twitter:image:src"@ || k == "og:image"@ || k
        == "og:site_name"@ || k == "og:description"@ || k == "twitter:description"@ || k
        == "description"@ {
        assert(k[0] != "og:title"@[0] || k[3] != "og:title"@[3] || k.len() != 8);
        assert(k != "og:title"@);
        assert(k != "twitter:title"@) by {
            if k.len() == 13 {
                assert(k[8] != 't' || k[0] != 't' || k[12] != 'e' || k[9] != 'i');
            }
        }
    }
    if k == "twitter:image"@ || k == "twitter:image:src"@ || k == "og:image"@ || k
        == "og:site_name"@ {
        assert(k != "og:description"@ && k != "twitter:description"@ && k != "description"@) by {
            assert(k.len() != 14 && k.len() != 19 && k.len() != 11);
        }
    }
    if k == "og:site_name"@ {
        assert(k != "og:image"@ && k != "twitter:image"@ && k != "twitter:image:src"@) by {
            assert(k.len() == 12);
        }
    }
}

/// The first tag that fills a field wins: applying further tags never changes the
/// URL nor a field that is already set.
pub proof fn law_first_tag_wins(m: PageMetadataView, rows: Seq<Seq<Option<Seq<char>>>>)
    ensures
        meta_fold(m, rows).url == m.url,
        m.title is Some ==> meta_fold(m, rows).title == m.title,
        m.description is Some ==> meta_fold(m, rows).description == m.description,
        m.image_url is Some ==> meta_fold(m, rows).image_url == m.image_url,
        m.site_name is Some ==> meta_fold(m, rows).site_name == m.site_name,
    decreases rows.len(),
{
    if rows.len() > 0 {
        law_first_tag_wins(m, rows.drop_last());
    }
}

/// The metadata of a page at `url`, from its tag rows and its title texts.
pub open spec fn page_metadata_of(
    url: Seq<char>,
    rows: Option<Seq<Seq<Option<Seq<char>>>>>,
    titles: Option<Seq<Seq<Seq<char>>>>,
) -> PageMetadataView {
    let start = PageMetadataView {
        url: url,
        title: None,
        description: None,
        image_url: None,
        site_name: None,
    };
    let tags = match rows {
        Some(r) => r,
        None => Seq::empty(),
    };
    title_fallback(meta_fold(start, tags), titles)
}

/// The characters of entry `i` of a row, `None` when absent or past its end.
fn cell(row: &Vec<Option<String>>, i: usize) -> (c: Option<Vec<char>>)
    ensures
        match c {
            Some(v) => row_at(row_view(*row), i as int) == Some(v@),
            None => row_at(row_view(*row), i as int) is None,
        },
{
    if i < row.len() {
        match &row[i] {
            Some(s) => Some(chars_of(s.as_str())),
            None => None,
        }
    } else {
        None
    }
}

/// Applies one tag row to the metadata.
fn apply_meta_row(meta: &mut PageMetadata, row: &Vec<Option<String>>)
    ensures
        final(meta)@ == apply_meta(old(meta)@, row_view(*row)),
{
    let ghost r = row_view(*row);
    let key: Option<Vec<char>> = match cell(row, 0) {
        Some(p) => Some(ascii_lower_chars(&p)),
        None => match cell(row, 1) {
            Some(n) => Some(ascii_lower_chars(&n)),
            None => None,
        },
    };
    assert(match key {
        Some(k) => meta_key(r) == Some(k@),
        None => meta_key(r) is None,
    });
    let content: Option<Vec<char>> = match cell(row, 2) {
        Some(c) => {
            let t = trim_chars(&c);
            if t.len() > 0 {
                Some(t)
            } else {
                None
            }
        },
        None => None,
    };
    assert(match content {
        Some(c) => meta_content(r) == Some(c@),
        None => meta_content(r) is None,
    });
    if let (Some(k), Some(c)) = (key, content) {
        if (equals_str(&k, "og:title") || equals_str(&k, "twitter:title")) && meta.title.is_none() {
            meta.title = Some(string_from_chars(&c));
        } else if (equals_str(&k, "og:description") || equals_str(&k, "twitter:description")
            || equals_str(&k, "description")) && meta.description.is_none() {
            meta.description = Some(string_from_chars(&c));
        } else if (equals_str(&k, "og:image") || equals_str(&k, "twitter:image") || equals_str(
            &k,
            "twitter:image:src",
        )) && meta.image_url.is_none() {
            meta.image_url = Some(string_from_chars(&c));
        } else if equals_str(&k, "og:site_name") && meta.site_name.is_none() {
            meta.site_name = Some(string_from_chars(&c));
        }
    }
}

/// The text pieces joined with single spaces.
fn join_with_space(parts: &Vec<String>) -> (r: Vec<char>)
    ensures
        r@ == join_texts(strings_view(*parts)),
{
    let ghost p = strings_view(*parts);
    let mut out: Vec<char> = Vec::new();
    let mut i: usize = 0;
    while i < parts.len()
        invariant
            i <= parts@.len() == p.len(),
            p == strings_view(*parts),
            out@ == join_texts(p.take(i as int)),
        decreases parts@.len() - i,
    {
        assert(p.take(i + 1).drop_last() =~= p.take(i as int));
        assert(p[i as int] == parts@[i as int]@);
        if i > 0 {
            out.push(' ');
        }
        let piece = chars_of(parts[i].as_str());
        push_chars(&mut out, &piece);
        if i == 0 {
            assert(out@ =~= p.take(1)[0]);
        } else {
            assert(out@ =~= join_texts(p.take(i as int)) + seq![' '] + p[i as int]);
        }
        i = i + 1;
    }
    assert(p.take(p.len() as int) =~= p);
    out
}

/// Page metadata from the tag rows (attributes `property`, `name`, `content` of
/// each `meta` tag, in document order) and the text pieces of the `<title>`
/// elements of a page fetched from `url`.
pub fn metadata_from_document(
    url: String,
    rows: &Option<Vec<Vec<Option<String>>>>,
    titles: &Option<Vec<Vec<String>>>,
) -> (meta: PageMetadata)
    ensures
        meta@ == page_metadata_of(url@, rows_view(*rows), texts_view(*titles)),
{
    let mut meta = PageMetadata {
        url: url,
        title: None,
        description: None,
        image_url: None,
        site_name: None,
    };
    let ghost start = meta@;
    match rows {
        Some(rs) => {
            let ghost rv = rs@.map_values(|row: Vec<Option<String>>| row_view(row));
            let mut i: usize = 0;
            while i < rs.len()
                invariant
                    i <= rs@.len() == rv.len(),
                    rv == rs@.map_values(|row: Vec<Option<String>>| row_view(row)),
                    meta@ == meta_fold(start, rv.take(i as int)),
                decreases rs@.len() - i,
            {
                assert(rv.take(i + 1).drop_last() =~= rv.take(i as int));
                apply_meta_row(&mut meta, &rs[i]);
                i = i + 1;
            }
            assert(rv.take(rv.len() as int) =~= rv);
        },
        None => {},
    }
    if meta.title.is_none() {
        if let Some(els) = titles {
            if els.len() > 0 {
                let joined = join_with_space(&els[0]);
                let clean = trim_chars(&joined);
                if clean.len() > 0 {
                    meta.title = Some(string_from_chars(&clean));
                }
            }
        }
    }
    meta
}

/// Page metadata from the HTML `body` of a page fetched from `url`: the first
/// OpenGraph or Twitter title, description, image and site name found in the
/// `meta` tags, with the `<title>` text as the fallback title.
pub fn extract_page_metadata(url: String, body: &str) -> (meta: PageMetadata)
    ensures
        meta@ == page_metadata_of(
            url@,
            html_selected_attrs(body@, meta_selector(), meta_attrs()),
            html_selected_texts(body@, "title"@),
        ),
{
    let attrs: Vec<String> = vec!["property".to_owned(), "name".to_owned(), "content".to_owned()];
    assert(strings_view(attrs) =~= meta_attrs());
    let rows = select_attributes(body, "meta[property], meta[name]", &attrs);
    let titles = select_texts(body, "title");
    metadata_from_document(url, &rows, &titles)
}

} // verus!
