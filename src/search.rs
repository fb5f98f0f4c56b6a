//! The search index: one record per published item, written as a JSON array.
use vstd::prelude::*;

use crate::collection::AvailableContent;
use crate::config::Config;
use crate::content::Content;
use crate::paths::{join, join_path};

verus! {

/// The lowercase hexadecimal digits.
pub open spec fn hex_digits() -> Seq<char> {
    seq!['0', '1', '2', '3', '4', '5', '6', '7', '8', '9', 'a', 'b', 'c', 'd', 'e', 'f']
}

/// How serde_json writes one character inside a JSON string: `"` and `\`
/// after a backslash; backspace, tab, newline, form feed and carriage return
/// as `\b \t \n \f \r`; any other character below U+0020 as `\u00` and two
/// lowercase hex digits; every other character as it is.
pub open spec fn json_escape(c: char) -> Seq<char> {
    let u = c as u32;
    if c == '"' {
        seq!['\\', '"']
    } else if c == '\\' {
        seq!['\\', '\\']
    } else if u == 0x08 {
        seq!['\\', 'b']
    } else if u == 0x09 {
        seq!['\\', 't']
    } else if u == 0x0a {
        seq!['\\', 'n']
    } else if u == 0x0c {
        seq!['\\', 'f']
    } else if u == 0x0d {
        seq!['\\', 'r']
    } else if u < 0x20 {
        seq!['\\', 'u', '0', '0', hex_digits()[(u / 16) as int], hex_digits()[(u % 16) as int]]
    } else {
        seq![c]
    }
}

/// The characters of `s`, each as it is written inside a JSON string.
pub open spec fn json_escaped(s: Seq<char>) -> Seq<char>
    decreases s.len(),
{
    if s.len() == 0 {
        seq![]
    } else {
        json_escaped(s.drop_last()) + json_escape(s.last())
    }
}

/// The JSON string literal that serde_json writes for `s`.
pub open spec fn json_string_of(s: Seq<char>) -> Seq<char> {
    seq!['"'] + json_escaped(s) + seq!['"']
}

/// Relies on serde_json::to_string on a string slice: the string between
/// quotes, each character escaped by serde_json's table (`format_escaped_str`).
/// Writing into a vector cannot fail, so the error arm is never taken.
#[verifier::external_body]
fn json_quote(s: &str) -> (r: String)
    ensures
        r@ == json_string_of(s@),
{
    serde_json::to_string(s).unwrap_or_default()
}

/// What the search finds of one item.
#[derive(Debug, Clone)]
pub struct SearchRecord {
    /// The page of the item, relative to the site root
    pub path: String,
    pub title: String,
    pub date: String,
    /// The plain text of a markdown item, else its body as written
    pub text: String,
}

/// The searchable text of an item.
pub open spec fn search_text(c: Content) -> Seq<char> {
    match c.post.text {
        Some(t) => t@,
        None => c.post.raw@,
    }
}

impl SearchRecord {
    /// The record is the one of item `c`.
    pub open spec fn of(&self, c: Content) -> bool {
        &&& self.path@ == c.location.url@
        &&& self.title@ == c.post.metadata.title@
        &&& self.date@ == c.post.metadata.date@
        &&& self.text@ == search_text(c)
    }

    /// The record of an item.
    pub fn from_content(c: &Content) -> (r: SearchRecord)
        ensures
            r.of(*c),
    {
        let text = match &c.post.text {
            Some(t) => t.clone(),
            None => c.post.raw.clone(),
        };
        SearchRecord {
            path: c.location.url.clone(),
            title: c.post.metadata.title.clone(),
            date: c.post.metadata.date.clone(),
            text,
        }
    }

    /// The record as a JSON object.
    pub fn to_json(&self) -> (r: String)
        ensures
            r@ == record_json(self.path@, self.title@, self.date@, self.text@),
    {
        let path = json_quote(self.path.as_str());
        let title = json_quote(self.title.as_str());
        let date = json_quote(self.date.as_str());
        let text = json_quote(self.text.as_str());
        frame_record(path.as_str(), title.as_str(), date.as_str(), text.as_str())
    }
}

/// A JSON object with the four members of a record, given as JSON values.
pub open spec fn record_frame(
    path: Seq<char>,
    title: Seq<char>,
    date: Seq<char>,
    text: Seq<char>,
) -> Seq<char> {
    "{\"path\":"@ + path + ",\"title\":"@ + title + ",\"date\":"@ + date + ",\"text\":"@ + text
        + "}"@
}

/// The JSON object of a record with these fields.
pub open spec fn record_json(
    path: Seq<char>,
    title: Seq<char>,
    date: Seq<char>,
    text: Seq<char>,
) -> Seq<char> {
    record_frame(
        json_string_of(path),
        json_string_of(title),
        json_string_of(date),
        json_string_of(text),
    )
}

/// Places four JSON values as the members `path`, `title`, `date` and
/// `text` of one JSON object.
pub fn frame_record(path: &str, title: &str, date: &str, text: &str) -> (r: String)
    ensures
        r@ == record_frame(path@, title@, date@, text@),
{
    let mut r = String::from_str("{\"path\":");
    r.append(path);
    r.append(",\"title\":");
    r.append(title);
    r.append(",\"date\":");
    r.append(date);
    r.append(",\"text\":");
    r.append(text);
    r.append("}");
    r
}

/// The parts separated by commas.
pub open spec fn comma_joined(parts: Seq<Seq<char>>) -> Seq<char>
    decreases parts.len(),
{
    if parts.len() == 0 {
        seq![]
    } else if parts.len() == 1 {
        parts[0]
    } else {
        comma_joined(parts.drop_last()) + ","@ + parts.last()
    }
}

/// A JSON array of the given JSON values.
pub open spec fn array_frame(parts: Seq<Seq<char>>) -> Seq<char> {
    "["@ + comma_joined(parts) + "]"@
}

/// Places JSON values, in order, into one JSON array.
pub fn frame_array(parts: &Vec<String>) -> (r: String)
    ensures
        r@ == array_frame(parts@.map_values(|p: String| p@)),
{
    let ghost pv = parts@.map_values(|p: String| p@);
    let mut body = String::new();
    let mut i: usize = 0;
    assert(pv.take(0) =~= Seq::<Seq<char>>::empty());
    while i < parts.len()
        invariant
            i <= parts.len(),
            pv == parts@.map_values(|p: String| p@),
            body@ == comma_joined(pv.take(i as int)),
        decreases parts.len() - i,
    {
        assert(pv.take(i + 1).drop_last() =~= pv.take(i as int));
        if i > 0 {
            body.append(",");
        } else {
            assert(body@ =~= Seq::<char>::empty());
        }
        body.append(parts[i].as_str());
        i = i + 1;
    }
    assert(pv.take(i as int) =~= pv);
    let mut r = String::from_str("[");
    r.append(body.as_str());
    r.append("]");
    r
}

/// The items that the search shows: the published ones, in order.
pub open spec fn published(cs: Seq<Content>) -> Seq<Content>
    decreases cs.len(),
{
    if cs.len() == 0 {
        seq![]
    } else {
        published(cs.drop_last()) + if cs.last().post.metadata.publish {
            seq![cs.last()]
        } else {
            seq![]
        }
    }
}

/// The JSON object of an item's record.
pub open spec fn content_json(c: Content) -> Seq<char> {
    record_json(c.location.url@, c.post.metadata.title@, c.post.metadata.date@, search_text(c))
}

/// The records of the published items, in collection order.
pub fn search_records(contents: &AvailableContent) -> (r: Vec<SearchRecord>)
    ensures
        r@.len() == published(contents.content@).len(),
        forall|i: int| 0 <= i < r@.len() ==> r@[i].of(published(contents.content@)[i]),
{
    let ghost cs = contents.content@;
    let mut out: Vec<SearchRecord> = Vec::new();
    let mut i: usize = 0;
    assert(cs.take(0) =~= Seq::<Content>::empty());
    while i < contents.content.len()
        invariant
            i <= cs.len(),
            cs == contents.content@,
            out@.len() == published(cs.take(i as int)).len(),
            forall|k: int| 0 <= k < out@.len() ==> out@[k].of(published(cs.take(i as int))[k]),
        decreases cs.len() - i,
    {
        assert(cs.take(i + 1).drop_last() =~= cs.take(i as int));
        let c = &contents.content[i];
        if c.post.metadata.publish {
            out.push(SearchRecord::from_content(c));
        }
        i = i + 1;
    }
    assert(cs.take(i as int) =~= cs);
    out
}

/// The search index: a JSON array of the records of the published items,
/// in collection order, each an object with `path`, `title`, `date` and `text`.
pub fn search_index_json(contents: &AvailableContent) -> (r: String)
    ensures
        r@ == array_frame(published(contents.content@).map_values(|c: Content| content_json(c))),
{
    let records = search_records(contents);
    let mut parts: Vec<String> = Vec::new();
    let mut i: usize = 0;
    while i < records.len()
        invariant
            i <= records.len(),
            records@.len() == published(contents.content@).len(),
            forall|k: int|
                0 <= k < records@.len() ==> records@[k].of(published(contents.content@)[k]),
            parts@.len() == i,
            forall|k: int|
                0 <= k < i ==> parts@[k]@ == content_json(published(contents.content@)[k]),
        decreases records.len() - i,
    {
        parts.push(records[i].to_json());
        i = i + 1;
    }
    assert(parts@.map_values(|p: String| p@) =~= published(contents.content@).map_values(
        |c: Content| content_json(c),
    ));
    frame_array(&parts)
}

/// Where the search index goes, where the configuration asks for one.
pub fn search_index_path(config: &Config) -> (r: Option<String>)
    ensures
        match r {
            Some(p) => config.search && p@ == join(config.output@, "search-index.json"@),
            None => !config.search,
        },
{
    if config.search {
        Some(join_path(config.output.as_str(), "search-index.json"))
    } else {
        None
    }
}

} // verus!
