//! What the tool reads from an EPUB: the novel's title and author from its
//! metadata, and the paragraphs of a chapter's HTML.

use vstd::prelude::*;

use crate::text::{push_str, str_equals};

verus! {

/// One entry of an EPUB's metadata: a property, such as `title` or
/// `creator`, and its value.
#[derive(Debug)]
pub struct MetadataItem {
    pub property: String,
    pub value: String,
}

/// The value of the first entry of `items` whose property is `property`.
pub open spec fn first_value(items: Seq<MetadataItem>, property: Seq<char>) -> Option<Seq<char>>
    decreases items.len(),
{
    if items.len() == 0 {
        None
    } else if items[0].property@ == property {
        Some(items[0].value@)
    } else {
        first_value(items.drop_first(), property)
    }
}

/// The lookup finds the first entry with the property: it gives a value
/// exactly when some entry has the property, and then the value of the
/// entry of lowest position among those that have it.
pub proof fn first_value_is_first_match(items: Seq<MetadataItem>, property: Seq<char>)
    ensures
        first_value(items, property) is Some <==> exists|i: int|
            0 <= i < items.len() && (#[trigger] items[i]).property@ == property,
        forall|j: int|
            0 <= j < items.len() && (#[trigger] items[j]).property@ == property && (forall|i: int|
                0 <= i < j ==> (#[trigger] items[i]).property@ != property) ==> first_value(
                items,
                property,
            ) == Some(items[j].value@),
    decreases items.len(),
{
    if items.len() > 0 {
        let rest = items.drop_first();
        first_value_is_first_match(rest, property);
        assert forall|i: int| 0 <= i < rest.len() implies #[trigger] rest[i] == items[i + 1] by {}
        if items[0].property@ != property {
            if exists|i: int| 0 <= i < items.len() && (#[trigger] items[i]).property@ == property {
                let i = choose|i: int|
                    0 <= i < items.len() && (#[trigger] items[i]).property@ == property;
                assert(rest[i - 1] == items[i]);
            }
            assert forall|j: int|
                0 <= j < items.len() && (#[trigger] items[j]).property@ == property && (forall|
                    i: int,
                | 0 <= i < j ==> (#[trigger] items[i]).property@ != property) implies first_value(
                items,
                property,
            ) == Some(items[j].value@) by {
                assert(rest[j - 1] == items[j]);
                assert forall|i: int| 0 <= i < j - 1 implies (#[trigger] rest[i]).property@
                    != property by {
                    assert(rest[i] == items[i + 1]);
                }
            }
        } else {
            assert forall|j: int|
                0 <= j < items.len() && (#[trigger] items[j]).property@ == property && (forall|
                    i: int,
                | 0 <= i < j ==> (#[trigger] items[i]).property@ != property) implies first_value(
                items,
                property,
            ) == Some(items[j].value@) by {
                if j > 0 {
                    assert(items[0].property@ != property);
                }
            }
        }
    }
}

/// The metadata names both a title and a creator.
pub open spec fn names_title_and_author(items: Seq<MetadataItem>) -> bool {
    &&& first_value(items, "title"@) is Some
    &&& first_value(items, "creator"@) is Some
}

/// The value of the first metadata entry with the given property, if any.
pub fn metadata_value(metadata: &[MetadataItem], property: &str) -> (r: Option<String>)
    ensures
        r.deep_view() == first_value(metadata@, property@),
{
    let ghost items = metadata@;
    let mut i: usize = 0;
    assert(items.subrange(0, items.len() as int) =~= items);
    while i < metadata.len()
        invariant
            items == metadata@,
            i <= items.len(),
            first_value(items, property@) == first_value(
                items.subrange(i as int, items.len() as int),
                property@,
            ),
        decreases items.len() - i,
    {
        let ghost rest = items.subrange(i as int, items.len() as int);
        assert(rest[0] == items[i as int]);
        if str_equals(metadata[i].property.as_str(), property) {
            return Some(metadata[i].value.clone());
        }
        assert(rest.drop_first() =~= items.subrange(i + 1, items.len() as int));
        i = i + 1;
    }
    None
}

/// The inner texts of the elements of the HTML document `html` that the CSS
/// selector `selector` picks, in document order, as tl parses and selects
/// them; `None` where tl cannot parse the document or the selector, or cannot
/// resolve a selected element.
pub uninterp spec fn selected_inner_texts(html: Seq<char>, selector: Seq<char>) -> Option<
    Seq<Seq<char>>,
>;

/// Calls `tl::parse` (default options), `VDom::query_selector`,
/// `NodeHandle::get` and `Node::inner_text`. Trusted: the result is
/// `selected_inner_texts(html, selector)`, a function of the two strings
/// alone; what tl's HTML and selector grammar make of them is left unsaid.
#[verifier::external_body]
pub fn inner_texts_of(html: &str, selector: &str) -> (r: Option<Vec<String>>)
    ensures
        r.deep_view() == selected_inner_texts(html@, selector@),
{
    let dom = match tl::parse(html, tl::ParserOptions::default()) {
        Ok(dom) => dom,
        Err(_) => return None,
    };
    let parser = dom.parser();
    let mut texts = Vec::new();
    for handle in dom.query_selector(selector)? {
        texts.push(handle.get(parser)?.inner_text(parser).into_owned());
    }
    Some(texts)
}

/// The selector of the paragraphs of a chapter's text.
pub const PARAGRAPH_SELECTOR: &'static str = "p.text-standard-tx";

/// What a chapter's HTML yields: the inner texts of its paragraphs (`None`
/// where they cannot be selected), and the text that stands for the chapter.
pub fn extract_text(raw_html: &str) -> (r: (Option<Vec<String>>, String))
    ensures
        r.0.deep_view() == selected_inner_texts(raw_html@, PARAGRAPH_SELECTOR@),
        r.1@ == "return shit"@,
{
    let paragraphs = inner_texts_of(raw_html, PARAGRAPH_SELECTOR);
    let mut text = String::new();
    push_str(&mut text, "return shit");
    (paragraphs, text)
}

/// A novel, known by its title and its author.
#[derive(Debug)]
pub struct Novel {
    title: String,
    author: String,
}

impl View for Novel {
    /// The title and the author.
    type V = (Seq<char>, Seq<char>);

    closed spec fn view(&self) -> (Seq<char>, Seq<char>) {
        (self.title@, self.author@)
    }
}

impl Novel {
    /// The novel described by an EPUB's metadata: its first `title` and its
    /// first `creator`.
    pub fn open(metadata: &[MetadataItem]) -> (novel: Novel)
        requires
            names_title_and_author(metadata@),
        ensures
            novel@ == (
                first_value(metadata@, "title"@).unwrap(),
                first_value(metadata@, "creator"@).unwrap(),
            ),
    {
        let (title, author) = Self::extract_information(metadata);
        Novel { title, author }
    }

    fn extract_information(metadata: &[MetadataItem]) -> (r: (String, String))
        requires
            names_title_and_author(metadata@),
        ensures
            r.0@ == first_value(metadata@, "title"@).unwrap(),
            r.1@ == first_value(metadata@, "creator"@).unwrap(),
    {
        let title = metadata_value(metadata, "title");
        let author = metadata_value(metadata, "creator");
        match (title, author) {
            (Some(title), Some(author)) => (title, author),
            _ => {
                assert(false);
                (String::new(), String::new())
            },
        }
    }

    /// The novel's title.
    pub fn title(&self) -> (r: &str)
        ensures
            r@ == self@.0,
    {
        self.title.as_str()
    }

    /// The novel's author.
    pub fn author(&self) -> (r: &str)
        ensures
            r@ == self@.1,
    {
        self.author.as_str()
    }
}

} // verus!
