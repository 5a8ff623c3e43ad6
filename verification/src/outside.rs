//! Trusted entry points into the HTML parser (`scraper`), the regular-expression engine
//! (`regex`) and the JSON parser (`serde_json`). Each result is named by an uninterpreted function of the arguments: the parsing
//! and matching algorithms are not restated here, only that the same input gives the same
//! output. Each entry point parses its input itself and hands back plain strings, because the
//! parsed document, its elements, a compiled expression and a parsed JSON value have no value that a contract could
//! name.

use vstd::prelude::*;

use crate::text::{contains, opt_view, views};

verus! {

/// The text held by the elements that `selector` picks out of the HTML document `html`: for
/// each element, in the order `Html::select` yields them, its text nodes in order; `None` when
/// `selector` is not a valid CSS selector.
pub uninterp spec fn selected_texts(html: Seq<char>, selector: Seq<char>) -> Option<Seq<Seq<Seq<char>>>>;

/// For each element that `selector` picks out of `html`, in the order `Html::select` yields
/// them, the text nodes of its parent: `None` for one whose parent is not an element; `None` as
/// a whole when `selector` is not a valid CSS selector.
pub uninterp spec fn selected_parent_texts(html: Seq<char>, selector: Seq<char>) -> Option<Seq<Option<Seq<Seq<char>>>>>;

/// For each element that `selector` picks out of `html`, in the order `Html::select` yields
/// them, the value of its attribute `attr`; `None` when `selector` is not a valid CSS selector.
pub uninterp spec fn selected_attrs(html: Seq<char>, selector: Seq<char>, attr: Seq<char>) -> Option<Seq<Option<Seq<char>>>>;

/// The text nodes of the root element of the HTML document `html`, in order.
pub uninterp spec fn root_texts(html: Seq<char>) -> Seq<Seq<char>>;

/// The first (leftmost) match of the regular expression `pattern` in `hay`: `Some(None)` when
/// there is none, `None` when `pattern` does not compile.
pub uninterp spec fn regex_first_match(pattern: Seq<char>, hay: Seq<char>) -> Option<Option<Seq<char>>>;

/// Whether the regular expression `pattern` matches somewhere in `hay`; `None` when `pattern`
/// does not compile.
pub uninterp spec fn regex_has_match(pattern: Seq<char>, hay: Seq<char>) -> Option<bool>;

/// `hay` with every non-overlapping match of `pattern` replaced by `rep`; `None` when `pattern`
/// does not compile.
pub uninterp spec fn regex_replaced(pattern: Seq<char>, hay: Seq<char>, rep: Seq<char>) -> Option<Seq<char>>;

/// What the JSON parser finds under `key` in the JSON text `json`: `None` when `json` is not
/// valid JSON; otherwise the string stored under `key`, or `None` when the top value is not an
/// object, lacks `key`, or holds something other than a string there.
pub uninterp spec fn json_string_at(json: Seq<char>, key: Seq<char>) -> Option<Option<Seq<char>>>;

/// What the JSON parser finds under `key` in the JSON text `json`: `None` when `json` is not
/// valid JSON; otherwise the entries of the list stored under `key`, each written back as
/// compact JSON text, or `None` when the top value is not an object, lacks `key`, or holds
/// something other than a list there.
pub uninterp spec fn json_list_at(json: Seq<char>, key: Seq<char>) -> Option<Option<Seq<Seq<char>>>>;

/// Optional lists of strings as optional lists of character sequences.
pub open spec fn parent_views(v: Seq<Option<Vec<String>>>) -> Seq<Option<Seq<Seq<char>>>> {
    v.map_values(|o: Option<Vec<String>>| match o {
        Some(t) => Some(views(t@)),
        None => None,
    })
}

/// Nested string vectors as nested character sequences.
pub open spec fn deep_views(v: Seq<Vec<String>>) -> Seq<Seq<Seq<char>>> {
    v.map_values(|e: Vec<String>| views(e@))
}

/// `scraper::Html::parse_document`, `scraper::Selector::parse`, `Html::select` and
/// `ElementRef::text`: the text nodes of every element that the selector picks out of the
/// parsed document. The contract only ties the result to `selected_texts`.
#[verifier::external_body]
pub(crate) fn select_texts(html: &str, selector: &str) -> (r: Option<Vec<Vec<String>>>)
    ensures
        match r {
            Some(v) => selected_texts(html@, selector@) == Some(deep_views(v@)),
            None => selected_texts(html@, selector@) is None,
        },
{
    let Ok(sel) = scraper::Selector::parse(selector) else { return None };
    let doc = scraper::Html::parse_document(html);
    let mut out = Vec::new();
    for element in doc.select(&sel) {
        out.push(element.text().map(String::from).collect());
    }
    Some(out)
}

/// `scraper::Html::select`, each match's `parent()` through `scraper::ElementRef::wrap`, then
/// `ElementRef::text`: the text nodes of the parent element of every element that the selector
/// picks out of the parsed document. The contract only ties the result to
/// `selected_parent_texts`.
#[verifier::external_body]
pub(crate) fn select_parent_texts(html: &str, selector: &str) -> (r: Option<Vec<Option<Vec<String>>>>)
    ensures
        match r {
            Some(v) => selected_parent_texts(html@, selector@) == Some(parent_views(v@)),
            None => selected_parent_texts(html@, selector@) is None,
        },
{
    let Ok(sel) = scraper::Selector::parse(selector) else { return None };
    let doc = scraper::Html::parse_document(html);
    let mut out = Vec::new();
    for element in doc.select(&sel) {
        match element.parent().and_then(scraper::ElementRef::wrap) {
            Some(parent) => out.push(Some(parent.text().map(String::from).collect())),
            None => out.push(None),
        }
    }
    Some(out)
}

/// `scraper::Html::select` and `ElementRef::attr`: the value of `attr` on every element that the
/// selector picks out of the parsed document. The contract only ties the result to
/// `selected_attrs`.
#[verifier::external_body]
pub(crate) fn select_attrs(html: &str, selector: &str, attr: &str) -> (r: Option<Vec<Option<String>>>)
    ensures
        match r {
            Some(v) => selected_attrs(html@, selector@, attr@) == Some(
                v@.map_values(|a: Option<String>| opt_view(a))),
            None => selected_attrs(html@, selector@, attr@) is None,
        },
{
    let Ok(sel) = scraper::Selector::parse(selector) else { return None };
    let doc = scraper::Html::parse_document(html);
    let mut out = Vec::new();
    for element in doc.select(&sel) {
        out.push(element.value().attr(attr).map(String::from));
    }
    Some(out)
}

/// `scraper::Html::root_element` and `ElementRef::text`: the text nodes of the parsed
/// document's root element (the parser always creates one). The contract only ties the result
/// to `root_texts`.
#[verifier::external_body]
pub(crate) fn root_element_texts(html: &str) -> (r: Vec<String>)
    ensures
        views(r@) == root_texts(html@),
{
    let doc = scraper::Html::parse_document(html);
    let root = doc.root_element();
    root.text().map(String::from).collect()
}

/// `regex::Regex::new` and `Regex::find`: the leftmost match of `pattern` in `hay`. The contract
/// ties the result to `regex_first_match`, and, as the crate documents, a match is a piece of
/// the haystack.
#[verifier::external_body]
pub(crate) fn regex_find(pattern: &str, hay: &str) -> (r: Option<Option<String>>)
    ensures
        match r {
            Some(Some(m)) => regex_first_match(pattern@, hay@) == Some(Some(m@)) && contains(hay@, m@),
            Some(None) => regex_first_match(pattern@, hay@) == Some(None::<Seq<char>>),
            None => regex_first_match(pattern@, hay@) is None,
        },
{
    match regex::Regex::new(pattern) {
        Ok(re) => match re.find(hay) {
            Some(m) => Some(Some(m.as_str().to_string())),
            None => Some(None),
        },
        Err(_) => None,
    }
}

/// `regex::Regex::new` and `Regex::is_match`. The contract only ties the result to
/// `regex_has_match`.
#[verifier::external_body]
pub(crate) fn regex_is_match(pattern: &str, hay: &str) -> (r: Option<bool>)
    ensures
        r == regex_has_match(pattern@, hay@),
{
    match regex::Regex::new(pattern) {
        Ok(re) => Some(re.is_match(hay)),
        Err(_) => None,
    }
}

/// `regex::Regex::new` and `Regex::replace_all`. The contract only ties the result to
/// `regex_replaced`.
#[verifier::external_body]
pub(crate) fn regex_replace_all(pattern: &str, hay: &str, rep: &str) -> (r: Option<String>)
    ensures
        match r {
            Some(s) => regex_replaced(pattern@, hay@, rep@) == Some(s@),
            None => regex_replaced(pattern@, hay@, rep@) is None,
        },
{
    match regex::Regex::new(pattern) {
        Ok(re) => Some(re.replace_all(hay, rep).into_owned()),
        Err(_) => None,
    }
}

/// `serde_json::from_str` into a `serde_json::Value`, then `Value::get` with `key` and
/// `Value::as_str`. The contract only ties the result to `json_string_at`.
#[verifier::external_body]
pub(crate) fn json_str_field(json: &str, key: &str) -> (r: Option<Option<String>>)
    ensures
        match r {
            Some(v) => json_string_at(json@, key@) == Some(opt_view(v)),
            None => json_string_at(json@, key@) is None,
        },
{
    let Ok(value) = serde_json::from_str::<serde_json::Value>(json) else { return None };
    Some(value.get(key).and_then(serde_json::Value::as_str).map(String::from))
}

/// `serde_json::from_str` into a `serde_json::Value`, then `Value::get` with `key`; when that is
/// an array, each entry written back with `Value`'s `Display` (compact JSON). The contract only
/// ties the result to `json_list_at`.
#[verifier::external_body]
pub(crate) fn json_list_field(json: &str, key: &str) -> (r: Option<Option<Vec<String>>>)
    ensures
        match r {
            Some(Some(v)) => json_list_at(json@, key@) == Some(Some(views(v@))),
            Some(None) => json_list_at(json@, key@) == Some(None::<Seq<Seq<char>>>),
            None => json_list_at(json@, key@) is None,
        },
{
    let Ok(value) = serde_json::from_str::<serde_json::Value>(json) else { return None };
    match value.get(key) {
        Some(serde_json::Value::Array(items)) => Some(Some(items.iter().map(serde_json::Value::to_string).collect())),
        _ => Some(None),
    }
}

} // verus!
