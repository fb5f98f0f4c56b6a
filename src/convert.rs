//! Turning a content body into HTML, and collecting its text for search.
use vstd::prelude::*;

use crate::error::ContentError;
use crate::front_matter::same_text;

verus! {

/// How a content body is written.
#[derive(Debug, Clone, Copy, PartialEq, Eq, Structural)]
pub enum PostSourceKind {
    Html,
    Markdown,
}

/// The kind of body that a file extension names.
pub open spec fn kind_of_extension(ext: Seq<char>) -> Option<PostSourceKind> {
    if ext == "md"@ {
        Some(PostSourceKind::Markdown)
    } else if ext == "html"@ {
        Some(PostSourceKind::Html)
    } else {
        None
    }
}

impl PostSourceKind {
    /// `md` is markdown and `html` is HTML; any other extension is refused.
    pub fn from_extension(ext: &str) -> (r: Result<PostSourceKind, ContentError>)
        ensures
            match kind_of_extension(ext@) {
                Some(k) => r == Ok::<_, ContentError>(k),
                None => r matches Err(ContentError::UnsupportedExtension { extension }) && extension@
                    == ext@,
            },
    {
        if same_text(ext, "md") {
            Ok(PostSourceKind::Markdown)
        } else if same_text(ext, "html") {
            Ok(PostSourceKind::Html)
        } else {
            Err(ContentError::UnsupportedExtension { extension: ext.to_owned() })
        }
    }
}

/// What pulldown-cmark makes of a markdown text: the HTML, and for each
/// event of the one parse that produced it, the text of a text run or none.
pub uninterp spec fn markdown_of(s: Seq<char>) -> (Seq<char>, Seq<Option<Seq<char>>>);

pub open spec fn opt_text_view(v: Seq<Option<String>>) -> Seq<Option<Seq<char>>> {
    v.map_values(
        |o: Option<String>|
            match o {
                Some(t) => Some(t@),
                None => None,
            },
    )
}

/// Relies on pulldown_cmark::Parser::new and pulldown_cmark::html::push_html:
/// one parse of `body` gives the events; push_html renders them to HTML, and
/// each `Event::Text` gives its text. Both depend on the body alone.
#[verifier::external_body]
fn markdown_events(body: &str) -> (r: (String, Vec<Option<String>>))
    ensures
        r.0@ == markdown_of(body@).0,
        opt_text_view(r.1@) == markdown_of(body@).1,
{
    let events: Vec<pulldown_cmark::Event> = pulldown_cmark::Parser::new(body).collect();
    let texts = events.iter().map(|e| match e {
        pulldown_cmark::Event::Text(t) => Some(t.to_string()),
        _ => None,
    }).collect();
    let mut html = String::new();
    pulldown_cmark::html::push_html(&mut html, events.into_iter());
    (html, texts)
}

/// The text runs in order, each followed by one space.
pub open spec fn spaced_text(runs: Seq<Option<Seq<char>>>) -> Seq<char>
    decreases runs.len(),
{
    if runs.len() == 0 {
        seq![]
    } else {
        spaced_text(runs.drop_last()) + match runs.last() {
            Some(t) => t + seq![' '],
            None => seq![],
        }
    }
}

/// The searchable text of a parse: each text run followed by one space.
pub fn text_of_runs(runs: &Vec<Option<String>>) -> (r: String)
    ensures
        r@ == spaced_text(opt_text_view(runs@)),
{
    let mut text = String::new();
    let mut i: usize = 0;
    proof {
        reveal_strlit(" ");
        assert(opt_text_view(runs@).take(0) =~= Seq::<Option<Seq<char>>>::empty());
    }
    while i < runs.len()
        invariant
            i <= runs.len(),
            text@ == spaced_text(opt_text_view(runs@).take(i as int)),
        decreases runs.len() - i,
    {
        proof {
            assert(opt_text_view(runs@).take(i + 1).drop_last() =~= opt_text_view(runs@).take(
                i as int,
            ));
        }
        match &runs[i] {
            Some(t) => {
                text.append(t.as_str());
                text.append(" ");
                proof {
                    reveal_strlit(" ");
                }
            },
            None => {},
        }
        i = i + 1;
    }
    assert(opt_text_view(runs@).take(i as int) =~= opt_text_view(runs@));
    text
}

/// The HTML of a body, and for a markdown body also its text.
pub open spec fn converted(body: Seq<char>, kind: PostSourceKind) -> (Seq<char>, Option<Seq<char>>) {
    match kind {
        PostSourceKind::Html => (body, None),
        PostSourceKind::Markdown => (
            markdown_of(body).0,
            Some(spaced_text(markdown_of(body).1)),
        ),
    }
}

/// Converts a body: HTML passes through with no text; markdown is rendered,
/// and its text runs, from the same parse, are gathered.
pub fn convert_body(body: &str, kind: PostSourceKind) -> (r: (String, Option<String>))
    ensures
        r.0@ == converted(body@, kind).0,
        match converted(body@, kind).1 {
            Some(t) => r.1 matches Some(s) && s@ == t,
            None => r.1 is None,
        },
{
    match kind {
        PostSourceKind::Html => (body.to_owned(), None),
        PostSourceKind::Markdown => {
            let (html, runs) = markdown_events(body);
            let text = text_of_runs(&runs);
            (html, Some(text))
        },
    }
}

} // verus!

verus! {

/// The text of a markdown body and its HTML come from one parse: the text is
/// the text runs of the very parse that gave the HTML, in document order,
/// each followed by one space; an HTML body passes through with no text.
pub proof fn lemma_text_follows_html(body: Seq<char>)
    ensures
        converted(body, PostSourceKind::Markdown) == (
            markdown_of(body).0,
            Some(spaced_text(markdown_of(body).1)),
        ),
        converted(body, PostSourceKind::Html) == (body, None::<Seq<char>>),
        spaced_text(Seq::<Option<Seq<char>>>::empty()) == Seq::<char>::empty(),
        forall|runs: Seq<Option<Seq<char>>>, t: Seq<char>|
            #[trigger] spaced_text(runs.push(Some(t))) == spaced_text(runs) + t + seq![' '],
        forall|runs: Seq<Option<Seq<char>>>|
            #[trigger] spaced_text(runs.push(None)) == spaced_text(runs),
{
    assert forall|runs: Seq<Option<Seq<char>>>, t: Seq<char>|
        #[trigger] spaced_text(runs.push(Some(t))) == spaced_text(runs) + t + seq![' '] by {
        assert(runs.push(Some(t)).drop_last() =~= runs);
        assert(spaced_text(runs.push(Some(t))) =~= spaced_text(runs) + t + seq![' ']);
    }
    assert forall|runs: Seq<Option<Seq<char>>>|
        #[trigger] spaced_text(runs.push(None)) == spaced_text(runs) by {
        assert(runs.push(None).drop_last() =~= runs);
        assert(spaced_text(runs.push(None)) =~= spaced_text(runs));
    }
}

} // verus!
