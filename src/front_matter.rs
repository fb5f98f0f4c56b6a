//! Splitting a content file into front matter and body, and reading the
//! front matter's `key: value` lines into metadata.
use vstd::prelude::*;

use crate::error::{ContentError, ErrorKind};
use crate::text::{
    chars_of, find, find_from, is_ws, lacks, lemma_find_from, lemma_find_is, lines, occurs_at,
    split_lines, strip_cr, substring, trim, trim_bounds, trim_end, trim_start,
};

verus! {

/// The delimiter that closes (and may open) the front matter.
pub open spec fn delimiter() -> Seq<char> {
    seq!['-', '-', '-']
}

/// Front matter and body of `s`. The front matter ends at the first
/// delimiter; where `s` starts with a delimiter, that one opens the front
/// matter and the next one closes it.
pub open spec fn split_front_matter(s: Seq<char>) -> Option<(Seq<char>, Seq<char>)> {
    match find_from(s, delimiter(), 0) {
        Some(j) => if j == 0 {
            match find_from(s, delimiter(), 3) {
                Some(k) => Some((s.subrange(3, k), s.subrange(k + 3, s.len() as int))),
                None => None,
            }
        } else {
            Some((s.subrange(0, j), s.subrange(j + 3, s.len() as int)))
        },
        None => None,
    }
}

/// A line that the front-matter reader passes over.
pub open spec fn is_skipped(l: Seq<char>) -> bool {
    l == delimiter() || l.len() == 0
}

/// The entry of a line whose first `':'` is at `c`: both sides trimmed.
pub open spec fn entry_of(l: Seq<char>, c: int) -> (Seq<char>, Seq<char>) {
    (trim(l.subrange(0, c)), trim(l.subrange(c + 1, l.len() as int)))
}

/// The entries of front-matter lines, in order, or the first malformed line.
pub open spec fn parse_entries(ls: Seq<Seq<char>>) -> Result<
    Seq<(Seq<char>, Seq<char>)>,
    Seq<char>,
>
    decreases ls.len(),
{
    if ls.len() == 0 {
        Ok(seq![])
    } else {
        let l = ls.last();
        match parse_entries(ls.drop_last()) {
            Err(e) => Err(e),
            Ok(es) => if is_skipped(l) {
                Ok(es)
            } else {
                match find_from(l, seq![':'], 0) {
                    Some(c) => Ok(es.push(entry_of(l, c))),
                    None => Err(l),
                }
            },
        }
    }
}

/// The entries as plain character sequences.
pub open spec fn entries_view(v: Seq<(String, String)>) -> Seq<(Seq<char>, Seq<char>)> {
    v.map_values(|e: (String, String)| (e.0@, e.1@))
}

/// The value of the last entry with key `k`.
pub open spec fn lookup(es: Seq<(Seq<char>, Seq<char>)>, k: Seq<char>) -> Option<Seq<char>>
    decreases es.len(),
{
    if es.len() == 0 {
        None
    } else if es.last().0 == k {
        Some(es.last().1)
    } else {
        lookup(es.drop_last(), k)
    }
}

pub open spec fn opt_view(o: Option<String>) -> Option<Seq<char>> {
    match o {
        Some(s) => Some(s@),
        None => None,
    }
}

/// The first required key that `es` lacks.
pub open spec fn incomplete_key(es: Seq<(Seq<char>, Seq<char>)>) -> Option<Seq<char>> {
    if lookup(es, "title"@) is None {
        Some("title"@)
    } else if lookup(es, "date"@) is None {
        Some("date"@)
    } else {
        None
    }
}

/// The metadata of a content item: the required and the recognised keys,
/// and every entry as it was read.
#[derive(Debug, Clone)]
pub struct Metadata {
    pub name: Option<String>,
    pub title: String,
    pub template: Option<String>,
    pub date: String,
    pub publish: bool,
    pub bare: bool,
    /// All entries in the order read; for a repeated key the last one counts.
    pub extra: Vec<(String, String)>,
}

impl Metadata {
    /// The fields are those that the entries `es` give.
    pub open spec fn describes(&self, es: Seq<(Seq<char>, Seq<char>)>) -> bool {
        &&& entries_view(self.extra@) == es
        &&& lookup(es, "title"@) == Some(self.title@)
        &&& lookup(es, "date"@) == Some(self.date@)
        &&& opt_view(self.name) == lookup(es, "name"@)
        &&& opt_view(self.template) == lookup(es, "template"@)
        &&& self.publish == (lookup(es, "publish"@) == Some("true"@))
        &&& self.bare == (lookup(es, "bare"@) == Some("true"@))
    }

    /// Builds the metadata from the entries of a front matter.
    pub fn from_entries(extra: Vec<(String, String)>) -> (r: Result<Metadata, ContentError>)
        ensures
            match incomplete_key(entries_view(extra@)) {
                Some(k) => r matches Err(ContentError::FrontMatterIncomplete { key }) && key@ == k,
                None => r matches Ok(m) && m.describes(entries_view(extra@)),
            },
    {
        let title = match find_entry(&extra, "title") {
            Some(t) => t,
            None => {
                return Err(ContentError::FrontMatterIncomplete { key: "title".to_owned() });
            },
        };
        let date = match find_entry(&extra, "date") {
            Some(d) => d,
            None => {
                return Err(ContentError::FrontMatterIncomplete { key: "date".to_owned() });
            },
        };
        let name = find_entry(&extra, "name");
        let template = find_entry(&extra, "template");
        let publish = match find_entry(&extra, "publish") {
            Some(v) => same_text(v.as_str(), "true"),
            None => false,
        };
        let bare = match find_entry(&extra, "bare") {
            Some(v) => same_text(v.as_str(), "true"),
            None => false,
        };
        Ok(Metadata { name, title, template, date, publish, bare, extra })
    }
}

/// Whether `a` and `b` hold the same characters.
pub fn same_text(a: &str, b: &str) -> (r: bool)
    ensures
        r == (a@ == b@),
{
    let n = a.unicode_len();
    if n != b.unicode_len() {
        return false;
    }
    let mut i: usize = 0;
    while i < n
        invariant
            n == a@.len() == b@.len(),
            i <= n,
            forall|k: int| 0 <= k < i ==> a@[k] == b@[k],
        decreases n - i,
    {
        if a.get_char(i) != b.get_char(i) {
            return false;
        }
        i = i + 1;
    }
    assert(a@ =~= b@);
    true
}

/// The value of the last entry whose key is `key`.
pub fn find_entry(es: &Vec<(String, String)>, key: &str) -> (r: Option<String>)
    ensures
        opt_view(r) == lookup(entries_view(es@), key@),
{
    let mut i: usize = es.len();
    assert(es@.take(i as int) =~= es@);
    while i > 0
        invariant
            i <= es.len(),
            lookup(entries_view(es@), key@) == lookup(entries_view(es@.take(i as int)), key@),
        decreases i,
    {
        let ghost pre = entries_view(es@.take(i as int));
        assert(pre.drop_last() =~= entries_view(es@.take(i - 1)));
        if same_text(es[i - 1].0.as_str(), key) {
            return Some(es[i - 1].1.clone());
        }
        i = i - 1;
    }
    None
}

} // verus!

verus! {

/// The entry of one front-matter line: `None` for a skipped line, the error
/// for a line without `':'`.
fn read_line(line: &String) -> (r: Option<Result<(String, String), ContentError>>)
    ensures
        is_skipped(line@) ==> r is None,
        !is_skipped(line@) ==> match find_from(line@, seq![':'], 0) {
            Some(c) => r matches Some(Ok(e)) && (e.0@, e.1@) == entry_of(line@, c),
            None => r matches Some(Err(ContentError::FrontMatterMalformed { line: l })) && l@
                == line@,
        },
{
    proof {
        reveal_strlit("---");
        assert("---"@ =~= delimiter());
    }
    if line.unicode_len() == 0 || same_text(line.as_str(), "---") {
        return None;
    }
    let chars = chars_of(line.as_str());
    let colon: Vec<char> = vec![':'];
    assert(colon@ =~= seq![':']);
    match find(&chars, &colon, 0) {
        Some(c) => {
            proof {
                lemma_find_from(line@, seq![':'], 0);
            }
            let (ka, kb) = trim_bounds(&chars, 0, c);
            let (va, vb) = trim_bounds(&chars, c + 1, chars.len());
            let key = substring(line.as_str(), ka, kb);
            let value = substring(line.as_str(), va, vb);
            Some(Ok((key, value)))
        },
        None => Some(Err(ContentError::FrontMatterMalformed { line: line.clone() })),
    }
}

/// Reads the `key: value` entries of a front matter, in order.
pub fn read_entries(front: &str) -> (r: Result<Vec<(String, String)>, ContentError>)
    ensures
        match parse_entries(lines(front@)) {
            Ok(es) => r matches Ok(v) && entries_view(v@) == es,
            Err(l) => r matches Err(ContentError::FrontMatterMalformed { line }) && line@ == l,
        },
{
    let ls = split_lines(front);
    let ghost lv = ls@.map_values(|l: String| l@);
    let mut out: Vec<(String, String)> = Vec::new();
    let mut i: usize = 0;
    assert(lv.take(0) =~= Seq::<Seq<char>>::empty());
    assert(entries_view(out@) =~= Seq::<(Seq<char>, Seq<char>)>::empty());
    while i < ls.len()
        invariant
            i <= ls.len(),
            lv == ls@.map_values(|l: String| l@),
            lv == lines(front@),
            parse_entries(lv.take(i as int)) == Ok::<_, Seq<char>>(entries_view(out@)),
        decreases ls.len() - i,
    {
        assert(lv.take(i + 1).drop_last() =~= lv.take(i as int));
        assert(lv.take(i + 1).last() == ls@[i as int]@);
        match read_line(&ls[i]) {
            None => {},
            Some(Ok(e)) => {
                let ghost before = out@;
                out.push(e);
                assert(entries_view(out@) =~= entries_view(before).push((e.0@, e.1@)));
            },
            Some(Err(err)) => {
                proof {
                    lemma_parse_entries_error(lv, i as int + 1);
                }
                return Err(err);
            },
        }
        i = i + 1;
    }
    assert(lv.take(i as int) =~= lv);
    Ok(out)
}

/// An error in a prefix of the lines is the error of all of them.
proof fn lemma_parse_entries_error(ls: Seq<Seq<char>>, n: int)
    requires
        0 <= n <= ls.len(),
        parse_entries(ls.take(n)) is Err,
    ensures
        parse_entries(ls) == parse_entries(ls.take(n)),
    decreases ls.len() - n,
{
    if n < ls.len() {
        assert(ls.take(n + 1).drop_last() =~= ls.take(n));
        lemma_parse_entries_error(ls, n + 1);
    } else {
        assert(ls.take(n) =~= ls);
    }
}

} // verus!

verus! {

/// Front matter and body of a content file.
pub fn split_document(text: &str) -> (r: Option<(String, String)>)
    ensures
        match split_front_matter(text@) {
            Some((f, b)) => r matches Some(p) && p.0@ == f && p.1@ == b,
            None => r is None,
        },
{
    let chars = chars_of(text);
    let delim: Vec<char> = vec!['-', '-', '-'];
    assert(delim@ =~= delimiter());
    let n = chars.len();
    proof {
        lemma_find_from(text@, delimiter(), 0);
        lemma_find_from(text@, delimiter(), 3);
    }
    match find(&chars, &delim, 0) {
        None => None,
        Some(j) => {
            if j == 0 {
                match find(&chars, &delim, 3) {
                    Some(k) => Some((substring(text, 3, k), substring(text, k + 3, n))),
                    None => None,
                }
            } else {
                Some((substring(text, 0, j), substring(text, j + 3, n)))
            }
        },
    }
}

/// The entries and body of a content file, or why it has none.
pub open spec fn document(s: Seq<char>) -> Result<(Seq<(Seq<char>, Seq<char>)>, Seq<char>), ErrorKind> {
    match split_front_matter(s) {
        None => Err(ErrorKind::MarkdownParseFailed),
        Some((f, b)) => match parse_entries(lines(f)) {
            Err(l) => Err(ErrorKind::FrontMatterMalformed(l)),
            Ok(es) => match incomplete_key(es) {
                Some(k) => Err(ErrorKind::FrontMatterIncomplete(k)),
                None => Ok((es, b)),
            },
        },
    }
}

/// Metadata and body of a content file.
pub fn parse_document(text: &str) -> (r: Result<(Metadata, String), ContentError>)
    ensures
        match document(text@) {
            Ok((es, b)) => r matches Ok(d) && d.0.describes(es) && d.1@ == b,
            Err(e) => r matches Err(x) && x@ == e,
        },
{
    let (front, body) = match split_document(text) {
        Some(p) => p,
        None => {
            return Err(ContentError::MarkdownParseFailed);
        },
    };
    let entries = read_entries(front.as_str())?;
    let metadata = Metadata::from_entries(entries)?;
    Ok((metadata, body))
}

} // verus!

verus! {

/// The line that holds one entry.
pub open spec fn entry_line(e: (Seq<char>, Seq<char>)) -> Seq<char> {
    e.0 + seq![':', ' '] + e.1
}

/// The lines of the entries, each ended by a newline.
pub open spec fn entry_lines(es: Seq<(Seq<char>, Seq<char>)>) -> Seq<char>
    decreases es.len(),
{
    if es.len() == 0 {
        seq![]
    } else {
        entry_line(es[0]) + seq!['\n'] + entry_lines(es.drop_first())
    }
}

/// A front matter that holds the entries `es`, between delimiters.
pub open spec fn front_matter_of(es: Seq<(Seq<char>, Seq<char>)>) -> Seq<char> {
    seq!['-', '-', '-', '\n'] + entry_lines(es) + delimiter()
}

/// A key that a front-matter line can hold and give back unchanged.
pub open spec fn is_plain_key(k: Seq<char>) -> bool {
    &&& trim(k) == k
    &&& !k.contains(':')
    &&& !k.contains('\n')
    &&& lacks(k, delimiter())
}

/// A value that a front-matter line can hold and give back unchanged.
pub open spec fn is_plain_value(v: Seq<char>) -> bool {
    &&& trim(v) == v
    &&& !v.contains('\n')
    &&& lacks(v, delimiter())
}

/// Three dashes in a row start at `i`.
spec fn dashes_at(s: Seq<char>, i: int) -> bool {
    s[i] == '-' && s[i + 1] == '-' && s[i + 2] == '-'
}

spec fn no_dashes(s: Seq<char>) -> bool {
    forall|i: int| 0 <= i && i + 2 < s.len() ==> !#[trigger] dashes_at(s, i)
}

proof fn lemma_lacks_no_dashes(s: Seq<char>)
    ensures
        lacks(s, delimiter()) <==> no_dashes(s),
{
    if lacks(s, delimiter()) {
        assert forall|i: int| 0 <= i && i + 2 < s.len() implies !#[trigger] dashes_at(s, i) by {
            if dashes_at(s, i) {
                assert(s.subrange(i, i + 3) =~= delimiter());
                assert(occurs_at(s, i, delimiter()));
            }
        }
    }
    if no_dashes(s) {
        assert forall|m: int| !#[trigger] occurs_at(s, m, delimiter()) by {
            if occurs_at(s, m, delimiter()) {
                assert(s.subrange(m, m + 3)[0] == '-');
                assert(s.subrange(m, m + 3)[1] == '-');
                assert(s.subrange(m, m + 3)[2] == '-');
                assert(dashes_at(s, m));
            }
        }
    }
}

proof fn lemma_no_dashes_join(a: Seq<char>, c: char, b: Seq<char>)
    requires
        no_dashes(a),
        no_dashes(b),
        c != '-',
    ensures
        no_dashes(a + seq![c] + b),
{
    let s = a + seq![c] + b;
    assert forall|i: int| 0 <= i && i + 2 < s.len() implies !#[trigger] dashes_at(s, i) by {
        if i + 2 < a.len() {
            assert(s[i] == a[i] && s[i + 1] == a[i + 1] && s[i + 2] == a[i + 2]);
            assert(!dashes_at(a, i));
        } else if i > a.len() {
            let j = i - a.len() - 1;
            assert(s[i] == b[j] && s[i + 1] == b[j + 1] && s[i + 2] == b[j + 2]);
            assert(!dashes_at(b, j));
        } else {
            assert(s[a.len() as int] == c);
        }
    }
}

proof fn lemma_trim_space_prefix(v: Seq<char>)
    ensures
        trim(seq![' '] + v) == trim(v),
{
    assert((seq![' '] + v).drop_first() =~= v);
    assert(is_ws(' '));
}

/// The entry lines hold no delimiter and end with a newline.
proof fn lemma_entry_lines_shape(es: Seq<(Seq<char>, Seq<char>)>)
    requires
        forall|i: int| 0 <= i < es.len() ==> is_plain_key(#[trigger] es[i].0) && is_plain_value(es[i].1),
    ensures
        no_dashes(entry_lines(es)),
        entry_lines(es).len() > 0 ==> entry_lines(es).last() == '\n',
    decreases es.len(),
{
    if es.len() > 0 {
        let rest = es.drop_first();
        assert forall|i: int| 0 <= i < rest.len() implies is_plain_key(#[trigger] rest[i].0)
            && is_plain_value(rest[i].1) by {
            assert(rest[i] == es[i + 1]);
        }
        lemma_entry_lines_shape(rest);
        assert(is_plain_key(es[0].0) && is_plain_value(es[0].1));
        let k = es[0].0;
        let v = es[0].1;
        lemma_lacks_no_dashes(k);
        lemma_lacks_no_dashes(v);
        assert(no_dashes(Seq::<char>::empty()));
        lemma_no_dashes_join(Seq::<char>::empty(), ' ', v);
        assert(Seq::<char>::empty() + seq![' '] + v =~= seq![' '] + v);
        lemma_no_dashes_join(k, ':', seq![' '] + v);
        assert(entry_line(es[0]) =~= k + seq![':'] + (seq![' '] + v));
        lemma_no_dashes_join(entry_line(es[0]), '\n', entry_lines(rest));
    }
}

/// The lines of the entry lines are the entry lines.
proof fn lemma_entry_lines_lines(es: Seq<(Seq<char>, Seq<char>)>)
    requires
        forall|i: int| 0 <= i < es.len() ==> is_plain_key(#[trigger] es[i].0) && is_plain_value(es[i].1),
    ensures
        lines(entry_lines(es)) == es.map_values(|e: (Seq<char>, Seq<char>)| entry_line(e)),
    decreases es.len(),
{
    if es.len() == 0 {
        assert(es.map_values(|e: (Seq<char>, Seq<char>)| entry_line(e)) =~= Seq::<
            Seq<char>,
        >::empty());
    } else {
        let rest = es.drop_first();
        assert forall|i: int| 0 <= i < rest.len() implies is_plain_key(#[trigger] rest[i].0)
            && is_plain_value(rest[i].1) by {
            assert(rest[i] == es[i + 1]);
        }
        lemma_entry_lines_lines(rest);
        assert(is_plain_key(es[0].0) && is_plain_value(es[0].1));
        let l = entry_line(es[0]);
        let s = entry_lines(es);
        let nl = seq!['\n'];
        assert(s == l + nl + entry_lines(rest));
        assert(occurs_at(s, l.len() as int, nl)) by {
            assert(s.subrange(l.len() as int, l.len() as int + 1) =~= nl);
        }
        assert forall|m: int| 0 <= m < l.len() implies !#[trigger] occurs_at(s, m, nl) by {
            assert(s[m] == l[m]);
            if occurs_at(s, m, nl) {
                assert(s.subrange(m, m + 1)[0] == s[m]);
                if m < es[0].0.len() {
                    assert(es[0].0.contains(l[m]));
                } else if m >= es[0].0.len() + 2 {
                    assert(l[m] == es[0].1[m - es[0].0.len() - 2]);
                    assert(es[0].1.contains(l[m]));
                }
            }
        }
        lemma_find_is(s, nl, 0, l.len() as int);
        assert(s.subrange(0, l.len() as int) =~= l);
        assert(s.subrange(l.len() as int + 1, s.len() as int) =~= entry_lines(rest));
        // the line does not end with a carriage return
        assert(strip_cr(l) == l) by {
            if es[0].1.len() > 0 {
                assert(l.last() == es[0].1.last());
                assert(trim_end(trim_start(es[0].1)) == es[0].1);
                lemma_trim_end_last(trim_start(es[0].1));
            } else {
                assert(l.last() == ' ');
            }
        }
        assert(es.map_values(|e: (Seq<char>, Seq<char>)| entry_line(e)) =~= seq![l]
            + rest.map_values(|e: (Seq<char>, Seq<char>)| entry_line(e)));
    }
}

/// A nonempty result of `trim_end` does not end with whitespace.
proof fn lemma_trim_end_last(s: Seq<char>)
    ensures
        trim_end(s).len() > 0 ==> !is_ws(trim_end(s).last()),
    decreases s.len(),
{
    if s.len() > 0 && is_ws(s.last()) {
        lemma_trim_end_last(s.drop_last());
    }
}

/// The entries read back from their lines, after the empty line that
/// follows the opening delimiter.
proof fn lemma_parse_entry_lines(lead: Seq<Seq<char>>, es: Seq<(Seq<char>, Seq<char>)>)
    requires
        parse_entries(lead) == Ok::<_, Seq<char>>(Seq::<(Seq<char>, Seq<char>)>::empty()),
        forall|i: int| 0 <= i < es.len() ==> is_plain_key(#[trigger] es[i].0) && is_plain_value(es[i].1),
    ensures
        parse_entries(lead + es.map_values(|e: (Seq<char>, Seq<char>)| entry_line(e))) == Ok::<
            _,
            Seq<char>,
        >(es),
    decreases es.len(),
{
    let ls = lead + es.map_values(|e: (Seq<char>, Seq<char>)| entry_line(e));
    if es.len() == 0 {
        assert(ls =~= lead);
        assert(es =~= Seq::<(Seq<char>, Seq<char>)>::empty());
    } else {
        let init = es.drop_last();
        assert forall|i: int| 0 <= i < init.len() implies is_plain_key(#[trigger] init[i].0)
            && is_plain_value(init[i].1) by {
            assert(init[i] == es[i]);
        }
        lemma_parse_entry_lines(lead, init);
        assert(ls.drop_last() =~= lead + init.map_values(
            |e: (Seq<char>, Seq<char>)| entry_line(e),
        ));
        let e = es.last();
        assert(is_plain_key(e.0) && is_plain_value(e.1));
        let l = entry_line(e);
        assert(ls.last() == l);
        let colon = seq![':'];
        assert(l[e.0.len() as int] == ':');
        assert(!is_skipped(l)) by {
            if l == delimiter() {
                assert(delimiter()[e.0.len() as int] == ':');
            }
        }
        assert(occurs_at(l, e.0.len() as int, colon)) by {
            assert(l.subrange(e.0.len() as int, e.0.len() as int + 1) =~= colon);
        }
        assert forall|m: int| 0 <= m < e.0.len() implies !#[trigger] occurs_at(l, m, colon) by {
            if occurs_at(l, m, colon) {
                assert(l.subrange(m, m + 1)[0] == l[m]);
                assert(l[m] == e.0[m]);
                assert(e.0.contains(':'));
            }
        }
        lemma_find_is(l, colon, 0, e.0.len() as int);
        assert(l.subrange(0, e.0.len() as int) =~= e.0);
        assert(l.subrange(e.0.len() as int + 1, l.len() as int) =~= seq![' '] + e.1);
        lemma_trim_space_prefix(e.1);
        assert(entry_of(l, e.0.len() as int) == e);
        assert(find_from(l, colon, 0) == Some(e.0.len() as int));
        assert(parse_entries(ls.drop_last()) == Ok::<_, Seq<char>>(init));
        assert(init.push(e) =~= es);
    }
}

/// The delimiters of a written front matter are where reading looks for them.
proof fn lemma_split_written(es: Seq<(Seq<char>, Seq<char>)>, body: Seq<char>)
    requires
        forall|i: int| 0 <= i < es.len() ==> is_plain_key(#[trigger] es[i].0) && is_plain_value(es[i].1),
    ensures
        split_front_matter(front_matter_of(es) + body) == Some((seq!['\n'] + entry_lines(es), body)),
{
    let e = entry_lines(es);
    let s = front_matter_of(es) + body;
    let d = delimiter();
    lemma_entry_lines_shape(es);
    assert(s =~= seq!['-', '-', '-', '\n'] + e + d + body);
    assert(occurs_at(s, 0, d)) by {
        assert(s.subrange(0, 3) =~= d);
    }
    lemma_find_is(s, d, 0, 0);
    let k = 4 + e.len() as int;
    assert(occurs_at(s, k, d)) by {
        assert(s.subrange(k, k + 3) =~= d);
    }
    assert forall|m: int| 3 <= m < k implies !#[trigger] occurs_at(s, m, d) by {
        if occurs_at(s, m, d) {
            assert(s.subrange(m, m + 3)[0] == s[m]);
            assert(s.subrange(m, m + 3)[1] == s[m + 1]);
            assert(s.subrange(m, m + 3)[2] == s[m + 2]);
            if m == 3 {
                assert(s[3] == '\n');
            } else if m + 3 <= k {
                assert(s[m] == e[m - 4] && s[m + 1] == e[m - 3] && s[m + 2] == e[m - 2]);
                assert(dashes_at(e, m - 4));
            } else {
                assert(s[k - 1] == e.last());
            }
        }
    }
    lemma_find_is(s, d, 3, k);
    assert(s.subrange(3, k) =~= seq!['\n'] + e);
    assert(s.subrange(k + 3, s.len() as int) =~= body);
}

/// Writing entries as a front matter and reading it back gives the same
/// entries and body: for keys and values that a line can hold unchanged
/// (trimmed, on one line, with no delimiter, and no `':'` in the key) and
/// with the required keys present.
pub proof fn lemma_front_matter_round_trip(es: Seq<(Seq<char>, Seq<char>)>, body: Seq<char>)
    requires
        forall|i: int| 0 <= i < es.len() ==> is_plain_key(#[trigger] es[i].0) && is_plain_value(es[i].1),
        incomplete_key(es) is None,
    ensures
        document(front_matter_of(es) + body) == Ok::<_, ErrorKind>((es, body)),
{
    let e = entry_lines(es);
    lemma_split_written(es, body);
    let f = seq!['\n'] + e;
    assert(occurs_at(f, 0, seq!['\n'])) by {
        assert(f.subrange(0, 1) =~= seq!['\n']);
    }
    lemma_find_is(f, seq!['\n'], 0, 0);
    assert(f.subrange(0, 0) =~= Seq::<char>::empty());
    assert(f.subrange(1, f.len() as int) =~= e);
    lemma_entry_lines_lines(es);
    assert(lines(f) =~= seq![Seq::<char>::empty()] + es.map_values(
        |x: (Seq<char>, Seq<char>)| entry_line(x),
    ));
    let lead = seq![Seq::<char>::empty()];
    assert(lead.drop_last() =~= Seq::<Seq<char>>::empty());
    assert(lead.last() == Seq::<char>::empty());
    assert(is_skipped(lead.last()));
    assert(parse_entries(lead.drop_last()) == Ok::<_, Seq<char>>(
        Seq::<(Seq<char>, Seq<char>)>::empty(),
    ));
    lemma_parse_entry_lines(lead, es);
}

/// The same holds without the opening delimiter: the entry lines, then the
/// closing delimiter, then the body, read back as the entries and the body.
pub proof fn lemma_front_matter_round_trip_unopened(
    es: Seq<(Seq<char>, Seq<char>)>,
    body: Seq<char>,
)
    requires
        forall|i: int| 0 <= i < es.len() ==> is_plain_key(#[trigger] es[i].0) && is_plain_value(es[i].1),
        incomplete_key(es) is None,
    ensures
        document(entry_lines(es) + delimiter() + body) == Ok::<_, ErrorKind>((es, body)),
{
    let e = entry_lines(es);
    let s = e + delimiter() + body;
    let d = delimiter();
    assert(es.len() > 0) by {
        if es.len() == 0 {
            assert(lookup(es, "title"@) is None);
        }
    }
    assert(e.len() > 0) by {
        assert(e == entry_line(es[0]) + seq!['\n'] + entry_lines(es.drop_first()));
    }
    lemma_entry_lines_shape(es);
    let k = e.len() as int;
    assert(occurs_at(s, k, d)) by {
        assert(s.subrange(k, k + 3) =~= d);
    }
    assert forall|m: int| 0 <= m < k implies !#[trigger] occurs_at(s, m, d) by {
        if occurs_at(s, m, d) {
            assert(s.subrange(m, m + 3)[0] == s[m]);
            assert(s.subrange(m, m + 3)[1] == s[m + 1]);
            assert(s.subrange(m, m + 3)[2] == s[m + 2]);
            if m + 3 <= k {
                assert(s[m] == e[m] && s[m + 1] == e[m + 1] && s[m + 2] == e[m + 2]);
                assert(dashes_at(e, m));
            } else {
                assert(s[k - 1] == e.last());
            }
        }
    }
    lemma_find_is(s, d, 0, k);
    assert(s.subrange(0, k) =~= e);
    assert(s.subrange(k + 3, s.len() as int) =~= body);
    lemma_entry_lines_lines(es);
    assert(Seq::<Seq<char>>::empty() + es.map_values(|x: (Seq<char>, Seq<char>)| entry_line(x))
        =~= es.map_values(|x: (Seq<char>, Seq<char>)| entry_line(x)));
    lemma_parse_entry_lines(Seq::<Seq<char>>::empty(), es);
}

} // verus!

verus! {

proof fn lemma_entry_lines_push(es: Seq<(Seq<char>, Seq<char>)>, x: (Seq<char>, Seq<char>))
    ensures
        entry_lines(es.push(x)) == entry_lines(es) + entry_line(x) + seq!['\n'],
    decreases es.len(),
{
    if es.len() == 0 {
        assert(es.push(x).drop_first() =~= Seq::<(Seq<char>, Seq<char>)>::empty());
        assert(es.push(x)[0] == x);
        assert(entry_lines(es.push(x).drop_first()) =~= Seq::<char>::empty());
        assert(entry_lines(es) =~= Seq::<char>::empty());
        assert(entry_lines(es.push(x)) =~= entry_lines(es) + entry_line(x) + seq!['\n']);
    } else {
        assert(es.push(x).drop_first() =~= es.drop_first().push(x));
        assert(es.push(x)[0] == es[0]);
        lemma_entry_lines_push(es.drop_first(), x);
        assert(entry_lines(es.push(x)) =~= entry_lines(es) + entry_line(x) + seq!['\n']);
    }
}

/// The front matter that holds `entries`, one `key: value` line each,
/// between delimiters.
pub fn write_front_matter(entries: &Vec<(String, String)>) -> (r: String)
    ensures
        r@ == front_matter_of(entries_view(entries@)),
{
    let ghost ev = entries_view(entries@);
    proof {
        reveal_strlit("---\n");
        reveal_strlit("---");
        reveal_strlit(": ");
        reveal_strlit("\n");
    }
    let mut r = String::from_str("---\n");
    let mut i: usize = 0;
    assert(ev.take(0) =~= Seq::<(Seq<char>, Seq<char>)>::empty());
    while i < entries.len()
        invariant
            i <= entries.len(),
            ev == entries_view(entries@),
            r@ == seq!['-', '-', '-', '\n'] + entry_lines(ev.take(i as int)),
        decreases entries.len() - i,
    {
        proof {
            assert(ev.take(i + 1) =~= ev.take(i as int).push(ev[i as int]));
            lemma_entry_lines_push(ev.take(i as int), ev[i as int]);
            reveal_strlit(": ");
            reveal_strlit("\n");
        }
        r.append(entries[i].0.as_str());
        r.append(": ");
        r.append(entries[i].1.as_str());
        r.append("\n");
        i = i + 1;
    }
    assert(ev.take(i as int) =~= ev);
    r.append("---");
    proof {
        reveal_strlit("---");
    }
    r
}

} // verus!
