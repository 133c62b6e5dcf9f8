//! Content files and data files.
//!
//! A content file opens with a line `---`, holds a YAML block of string keys
//! and values, closes it with another line `---`, and continues with a body in
//! markdown. Data files hold a list of such records, in YAML or JSON.
use vstd::prelude::*;
use vstd::string::*;
use crate::err::{framed_err, MandyErr};
use crate::text::chars_of;
use crate::units::{ContentStore, Record};

verus! {

/// What the markdown converter makes of a body.
pub uninterp spec fn html_of(body: Seq<char>) -> Seq<char>;

/// The key-ordered pairs of a YAML mapping of strings to strings, where the
/// text is one.
pub uninterp spec fn yaml_map_of(text: Seq<char>) -> Option<Seq<(Seq<char>, Seq<char>)>>;

/// The records of a YAML list of mappings of strings to strings, where the
/// text is one, else the parser's message.
pub uninterp spec fn yaml_records_of(text: Seq<char>) -> Result<
    Seq<Seq<(Seq<char>, Seq<char>)>>,
    Seq<char>,
>;

/// The records of a JSON array of objects of strings, where the text is one,
/// else the parser's message.
pub uninterp spec fn json_records_of(text: Seq<char>) -> Result<
    Seq<Seq<(Seq<char>, Seq<char>)>>,
    Seq<char>,
>;

/// The views of key-value pairs.
pub open spec fn pairs_view(v: Seq<(String, String)>) -> Seq<(Seq<char>, Seq<char>)> {
    v.map_values(|p: (String, String)| (p.0@, p.1@))
}

/// The views of records.
pub open spec fn records_view(v: Seq<Record>) -> Seq<Seq<(Seq<char>, Seq<char>)>> {
    v.map_values(|r: Record| pairs_view(r@))
}

/// Relies on markdown::to_html: converts a markdown body to HTML with the
/// crate's default options; the result depends on the body alone.
#[verifier::external_body]
fn markup_to_html(body: &str) -> (r: String)
    ensures
        r@ == html_of(body@),
{
    markdown::to_html(body)
}

/// Relies on serde_yml::from_str, read into a BTreeMap of strings, whose
/// pairs come out in key order.
#[verifier::external_body]
fn yaml_string_map(text: &str) -> (r: Result<Record, String>)
    ensures
        match yaml_map_of(text@) {
            Some(ps) => r is Ok && pairs_view(r->Ok_0@) == ps,
            None => r is Err,
        },
{
    match serde_yml::from_str::<std::collections::BTreeMap<String, String>>(text) {
        Ok(m) => Ok(m.into_iter().collect()),
        Err(e) => Err(e.to_string()),
    }
}

/// Relies on serde_yml::from_str, read into a list of BTreeMaps of strings,
/// whose pairs come out in key order; a failure gives the error's message.
#[verifier::external_body]
fn yaml_string_records(text: &str) -> (r: Result<Vec<Record>, String>)
    ensures
        match yaml_records_of(text@) {
            Ok(rs) => r is Ok && records_view(r->Ok_0@) == rs,
            Err(m) => r is Err && r->Err_0@ == m,
        },
{
    match serde_yml::from_str::<Vec<std::collections::BTreeMap<String, String>>>(text) {
        Ok(v) => Ok(v.into_iter().map(|m| m.into_iter().collect()).collect()),
        Err(e) => Err(e.to_string()),
    }
}

/// Relies on serde_json::from_str, read into a list of BTreeMaps of strings,
/// whose pairs come out in key order; a failure gives the error's message.
#[verifier::external_body]
fn json_string_records(text: &str) -> (r: Result<Vec<Record>, String>)
    ensures
        match json_records_of(text@) {
            Ok(rs) => r is Ok && records_view(r->Ok_0@) == rs,
            Err(m) => r is Err && r->Err_0@ == m,
        },
{
    match serde_json::from_str::<Vec<std::collections::BTreeMap<String, String>>>(text) {
        Ok(v) => Ok(v.into_iter().map(|m| m.into_iter().collect()).collect()),
        Err(e) => Err(e.to_string()),
    }
}

/// Parses the records of a YAML data file.
pub fn parse_yml_data(src: &String) -> (r: Result<Vec<Record>, MandyErr>)
    ensures
        match yaml_records_of(src@) {
            Ok(rs) => r is Ok && records_view(r->Ok_0@) == rs,
            Err(m) => r is Err && r->Err_0.details@ == m,
        },
{
    match yaml_string_records(src.as_str()) {
        Ok(v) => Ok(v),
        Err(e) => Err(MandyErr { details: e }),
    }
}

/// Parses the records of a JSON data file.
pub fn parse_json_data(src: &String) -> (r: Result<Vec<Record>, MandyErr>)
    ensures
        match json_records_of(src@) {
            Ok(rs) => r is Ok && records_view(r->Ok_0@) == rs,
            Err(m) => r is Err && r->Err_0.details@ == m,
        },
{
    match json_string_records(src.as_str()) {
        Ok(v) => Ok(v),
        Err(e) => Err(MandyErr { details: e }),
    }
}

/// Whether the text opens a metadata block: a first line `---`.
pub open spec fn opens(src: Seq<char>) -> bool {
    src.len() >= 4 && src[0] == '-' && src[1] == '-' && src[2] == '-' && src[3] == '\n'
}

/// Whether a line `---` that closes the metadata block starts after the line
/// break at `k`.
pub open spec fn closes_at(src: Seq<char>, k: int) -> bool {
    &&& 0 <= k
    &&& k + 4 <= src.len()
    &&& src[k] == '\n'
    &&& src[k + 1] == '-'
    &&& src[k + 2] == '-'
    &&& src[k + 3] == '-'
    &&& (k + 4 == src.len() || src[k + 4] == '\n')
}

/// The first `k` from `j` on where the metadata block closes, or -1.
pub open spec fn first_close(src: Seq<char>, j: int) -> int
    decreases src.len() - j,
{
    if j < 0 || j + 4 > src.len() {
        -1
    } else if closes_at(src, j) {
        j
    } else {
        first_close(src, j + 1)
    }
}

/// The metadata block and the body of a content file, where it has both.
pub open spec fn split_front(src: Seq<char>) -> Option<(Seq<char>, Seq<char>)> {
    if !opens(src) {
        None
    } else {
        let k = first_close(src, 3);
        if k < 0 {
            None
        } else {
            let meta = if k < 4 {
                Seq::empty()
            } else {
                src.subrange(4, k)
            };
            let body = if k + 4 == src.len() {
                Seq::empty()
            } else {
                src.subrange(k + 5, src.len() as int)
            };
            Some((meta, body))
        }
    }
}

proof fn lemma_first_close(src: Seq<char>, j: int)
    ensures
        first_close(src, j) == -1 || (j <= first_close(src, j) && closes_at(
            src,
            first_close(src, j),
        )),
    decreases src.len() - j,
{
    if !(j < 0 || j + 4 > src.len()) && !closes_at(src, j) {
        lemma_first_close(src, j + 1);
    }
}

/// Splits a content file into its metadata block and its body.
pub fn split_front_matter(src: &String) -> (r: Option<(String, String)>)
    ensures
        match split_front(src@) {
            Some((meta, body)) => r is Some && r->Some_0.0@ == meta && r->Some_0.1@ == body,
            None => r is None,
        },
{
    let cs = chars_of(src.as_str());
    let n = cs.len();
    if !(n >= 4 && cs[0] == '-' && cs[1] == '-' && cs[2] == '-' && cs[3] == '\n') {
        return None;
    }
    let mut j: usize = 3;
    while 4 <= n - j
        invariant
            3 <= j <= n,
            n == cs@.len(),
            cs@ == src@,
            opens(src@),
            first_close(src@, 3) == first_close(src@, j as int),
        decreases n - j,
    {
        assert(j + 4 <= n);
        if cs[j] == '\n' && cs[j + 1] == '-' && cs[j + 2] == '-' && cs[j + 3] == '-' && (j + 4
            == n || cs[j + 4] == '\n') {
            proof {
                lemma_first_close(src@, 3);
            }
            let meta = if j < 4 {
                String::new()
            } else {
                String::from_str(src.as_str().substring_char(4, j))
            };
            let body = if j + 4 == n {
                String::new()
            } else {
                String::from_str(src.as_str().substring_char(j + 5, n))
            };
            return Some((meta, body));
        }
        j = j + 1;
    }
    None
}

/// The index of the first pair with key `key`, or the length where there is none.
pub open spec fn key_index(ps: Seq<(Seq<char>, Seq<char>)>, key: Seq<char>) -> int
    decreases ps.len(),
{
    if ps.len() == 0 {
        0
    } else if ps[0].0 == key {
        0
    } else {
        1 + key_index(ps.drop_first(), key)
    }
}

proof fn lemma_key_index_at(ps: Seq<(Seq<char>, Seq<char>)>, key: Seq<char>, i: int)
    requires
        0 <= i <= ps.len(),
        forall|j: int| 0 <= j < i ==> #[trigger] ps[j].0 != key,
        i == ps.len() || ps[i].0 == key,
    ensures
        key_index(ps, key) == i,
    decreases i,
{
    if i > 0 {
        let t = ps.drop_first();
        assert(ps[0].0 != key);
        assert forall|j: int| 0 <= j < i - 1 implies #[trigger] t[j].0 != key by {
            assert(t[j] == ps[j + 1]);
        }
        if i < ps.len() {
            assert(t[i - 1] == ps[i]);
        }
        lemma_key_index_at(t, key, i - 1);
    }
}

/// The key that names a content item's layout.
pub open spec fn layout_key() -> Seq<char> {
    "layout"@
}

/// The message of a content file that cannot be split or read.
pub open spec fn parse_error_msg(src: Seq<char>) -> Seq<char> {
    "Error parsing \""@ + src + "\"."@
}

/// The message of a content file without a layout.
pub open spec fn missing_layout_msg(src: Seq<char>) -> Seq<char> {
    "The \"layout\" variable was not set in the following Markdown source code: \""@ + src
        + "\"."@
}

/// A parsed content file as plain values: layout name, metadata, HTML body.
pub open spec fn store_view(c: ContentStore) -> (Seq<char>, Seq<(Seq<char>, Seq<char>)>, Seq<char>) {
    (c.layout@, pairs_view(c.params@), c.content@)
}

/// Assembles a content item from the metadata read from `src` and its body
/// converted to HTML: the layout is the value of the first `layout` key.
pub fn assemble_content(src: &String, meta: Result<Record, String>, body_html: String) -> (r:
    Result<ContentStore, MandyErr>)
    ensures
        match meta {
            Err(_) => r is Err && r->Err_0.details@ == parse_error_msg(src@),
            Ok(ps) => {
                let i = key_index(pairs_view(ps@), layout_key());
                if i < ps@.len() {
                    r is Ok && store_view(r->Ok_0) == (
                        pairs_view(ps@)[i].1,
                        pairs_view(ps@),
                        body_html@,
                    )
                } else {
                    r is Err && r->Err_0.details@ == missing_layout_msg(src@)
                }
            },
        },
{
    let ps = match meta {
        Ok(ps) => ps,
        Err(_) => {
            return Err(framed_err("Error parsing \"", src.as_str(), "\"."));
        },
    };
    let ghost v = pairs_view(ps@);
    let key = String::from_str("layout");
    let mut i: usize = 0;
    while i < ps.len()
        invariant
            i <= ps@.len(),
            meta is Ok,
            ps == meta->Ok_0,
            v == pairs_view(ps@),
            key@ == layout_key(),
            forall|j: int| 0 <= j < i ==> #[trigger] v[j].0 != layout_key(),
        decreases ps@.len() - i,
    {
        assert(v[i as int] == (ps@[i as int].0@, ps@[i as int].1@));
        if ps[i].0 == key {
            proof {
                lemma_key_index_at(v, layout_key(), i as int);
            }
            let layout = ps[i].1.clone();
            assert(layout@ == v[i as int].1);
            let c = ContentStore { layout, params: ps, content: body_html };
            assert(store_view(c) == (v[i as int].1, v, body_html@));
            return Ok(c);
        }
        i = i + 1;
    }
    proof {
        lemma_key_index_at(v, layout_key(), i as int);
    }
    Err(
        framed_err(
            "The \"layout\" variable was not set in the following Markdown source code: \"",
            src.as_str(),
            "\".",
        ),
    )
}

/// What parsing a content file gives: its layout name, metadata and HTML
/// body, or the message of the failure.
pub open spec fn document_of(src: Seq<char>) -> Result<
    (Seq<char>, Seq<(Seq<char>, Seq<char>)>, Seq<char>),
    Seq<char>,
> {
    match split_front(src) {
        None => Err(parse_error_msg(src)),
        Some((meta, body)) => match yaml_map_of(meta) {
            None => Err(parse_error_msg(src)),
            Some(ps) => {
                let i = key_index(ps, layout_key());
                if i < ps.len() {
                    Ok((ps[i].1, ps, html_of(body)))
                } else {
                    Err(missing_layout_msg(src))
                }
            },
        },
    }
}

/// Parses a content file.
pub fn parse_document(src: &String) -> (r: Result<ContentStore, MandyErr>)
    ensures
        match document_of(src@) {
            Ok(v) => r is Ok && store_view(r->Ok_0) == v,
            Err(m) => r is Err && r->Err_0.details@ == m,
        },
{
    match split_front_matter(src) {
        None => Err(framed_err("Error parsing \"", src.as_str(), "\".")),
        Some((meta, body)) => {
            let m = yaml_string_map(meta.as_str());
            let html = markup_to_html(body.as_str());
            assemble_content(src, m, html)
        },
    }
}

} // verus!
