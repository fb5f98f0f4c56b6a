//! Content items: where each one comes from and goes to, and how a source
//! file becomes an item.
use vstd::prelude::*;

use crate::config::Config;
use crate::convert::{convert_body, converted, kind_of_extension, PostSourceKind};
use crate::error::{ContentError, ErrorKind, ItemError};
use crate::collection::{first_error, lemma_first_error_none};
use crate::front_matter::{
    document, lookup, parse_document, parse_entries, same_text, split_front_matter, Metadata,
};
use crate::text::lines;
use crate::paths::{
    extension, extension_of, file_name, file_name_of, join, join_path, stem,
    stem_of,
};

verus! {

/// The name of an output page: the stem of the source name, as `.html`.
pub open spec fn page_name(name: Seq<char>) -> Seq<char> {
    stem(name) + ".html"@
}

/// Where an item is read from and written to.
#[derive(Debug, Clone)]
pub struct LocationData {
    /// The source path
    pub src: String,
    /// The destination path under the output directory
    pub dst: String,
    /// The path of the page relative to the site root
    pub url: String,
    /// The file name of the page
    pub filename: String,
}

impl LocationData {
    /// The location of the item at `src`, whose page goes into the directory
    /// `subdir` of the site under `output`.
    pub open spec fn places(&self, src: Seq<char>, subdir: Seq<char>, output: Seq<char>) -> bool {
        &&& file_name(src) is Some
        &&& self.src@ == src
        &&& self.filename@ == page_name(file_name(src)->0)
        &&& self.url@ == join(subdir, self.filename@)
        &&& self.dst@ == join(output, self.url@)
    }

    fn place(src: &str, subdir: &str, output: &str) -> (r: Result<LocationData, ContentError>)
        ensures
            match r {
                Ok(l) => l.places(src@, subdir@, output@),
                Err(e) => file_name(src@) is None && e@ == ErrorKind::MissingFileName,
            },
    {
        let name = match file_name_of(src) {
            Some(n) => n,
            None => {
                return Err(ContentError::MissingFileName);
            },
        };
        let mut filename = stem_of(name.as_str());
        filename.append(".html");
        let url = join_path(subdir, filename.as_str());
        let dst = join_path(output, url.as_str());
        Ok(LocationData { src: src.to_owned(), dst, url, filename })
    }

    /// The location of a post: its page is `posts/<stem>.html`.
    pub fn for_post(filepath: String, config: &Config) -> (r: Result<LocationData, ContentError>)
        ensures
            match r {
                Ok(l) => l.places(filepath@, "posts"@, config.output@),
                Err(e) => file_name(filepath@) is None && e@ == ErrorKind::MissingFileName,
            },
    {
        LocationData::place(filepath.as_str(), "posts", config.output.as_str())
    }

    /// The location of a photo project: its page is `photos/<name>.html`.
    pub fn for_project(dir: &str, config: &Config) -> (r: Result<LocationData, ContentError>)
        ensures
            match r {
                Ok(l) => l.places(dir@, "photos"@, config.output@),
                Err(e) => file_name(dir@) is None && e@ == ErrorKind::MissingFileName,
            },
    {
        LocationData::place(dir, "photos", config.output.as_str())
    }
}

/// The extensions of the images that a photo project shows.
pub open spec fn is_image(name: Seq<char>) -> bool {
    match extension(name) {
        Some(e) => e == "jpg"@ || e == "jpeg"@ || e == "png"@ || e == "gif"@ || e == "webp"@,
        None => false,
    }
}

/// The images among a directory's entries, in the order given.
pub open spec fn images_of(names: Seq<Seq<char>>) -> Seq<Seq<char>>
    decreases names.len(),
{
    if names.len() == 0 {
        seq![]
    } else {
        images_of(names.drop_last()) + if is_image(names.last()) {
            seq![names.last()]
        } else {
            seq![]
        }
    }
}

pub open spec fn names_view(v: Seq<String>) -> Seq<Seq<char>> {
    v.map_values(|s: String| s@)
}

/// The file that holds a photo project's text.
pub open spec fn project_content_name() -> Seq<char> {
    "post.html"@
}

/// What an item is.
#[derive(Debug, Clone)]
pub enum ContentKind {
    /// A single content file
    Post,
    /// A directory of images with its `post.html`
    PhotoProject {
        /// The directory of the images in the site, `photos/<name>`
        dir_url: String,
        /// The image file names, in directory order
        images: Vec<String>,
    },
}

/// A classified content entry, before its file is read.
#[derive(Debug, Clone)]
pub struct ContentSource {
    /// The file that holds the item's front matter and body
    pub path: String,
    pub kind: PostSourceKind,
    pub location: LocationData,
    pub item: ContentKind,
}

/// Whether `name` is an image file name.
pub fn is_image_name(name: &str) -> (r: bool)
    ensures
        r == is_image(name@),
{
    match extension_of(name) {
        Some(e) => {
            let s = e.as_str();
            same_text(s, "jpg") || same_text(s, "jpeg") || same_text(s, "png") || same_text(
                s,
                "gif",
            ) || same_text(s, "webp")
        },
        None => false,
    }
}

/// The kind of body that the extension of a content file's name gives.
pub open spec fn file_kind(path: Seq<char>) -> Option<PostSourceKind> {
    match file_name(path) {
        Some(n) => match extension(n) {
            Some(e) => kind_of_extension(e),
            None => None,
        },
        None => None,
    }
}

/// Classifies a content file by its extension.
pub fn classify_file(path: &str, config: &Config) -> (r: Result<ContentSource, ItemError>)
    ensures
        match r {
            Ok(s) => s.path@ == path@ && s.item is Post && s.location.places(
                path@,
                "posts"@,
                config.output@,
            ) && file_kind(path@) == Some(s.kind),
            Err(e) => e.path@ == path@ && match file_name(path@) {
                None => e.error@ == ErrorKind::MissingFileName,
                Some(n) => match extension(n) {
                    None => e.error@ == ErrorKind::UnsupportedExtension(seq![]),
                    Some(x) => kind_of_extension(x) is None && e.error@
                        == ErrorKind::UnsupportedExtension(x),
                },
            },
        },
        file_kind(path@) is Some ==> r is Ok,
{
    let name = match file_name_of(path) {
        Some(n) => n,
        None => {
            return Err(ItemError::at(path, ContentError::MissingFileName));
        },
    };
    let ext = match extension_of(name.as_str()) {
        Some(e) => e,
        None => {
            return Err(
                ItemError::at(path, ContentError::UnsupportedExtension { extension: String::new() }),
            );
        },
    };
    let kind = match PostSourceKind::from_extension(ext.as_str()) {
        Ok(k) => k,
        Err(e) => {
            return Err(ItemError::at(path, e));
        },
    };
    let location = match LocationData::for_post(path.to_owned(), config) {
        Ok(l) => l,
        Err(e) => {
            return Err(ItemError::at(path, e));
        },
    };
    Ok(ContentSource { path: path.to_owned(), kind, location, item: ContentKind::Post })
}

} // verus!

verus! {

/// Classifies a photo-project directory from the names of its entries.
pub fn classify_project(dir: &str, children: &Vec<String>, config: &Config) -> (r: Result<
    ContentSource,
    ItemError,
>)
    ensures
        match r {
            Ok(s) => {
                &&& s.path@ == join(dir@, project_content_name())
                &&& s.kind == PostSourceKind::Html
                &&& s.location.places(dir@, "photos"@, config.output@)
                &&& names_view(children@).contains(project_content_name())
                &&& s.item matches ContentKind::PhotoProject { dir_url, images }
                &&& dir_url@ == join("photos"@, file_name(dir@)->0)
                &&& names_view(images@) == images_of(names_view(children@))
            },
            Err(e) => e.path@ == dir@ && if file_name(dir@) is None {
                e.error@ == ErrorKind::MissingFileName
            } else {
                !names_view(children@).contains(project_content_name()) && e.error@
                    == ErrorKind::MissingProjectContent
            },
        },
        file_name(dir@) is Some && names_view(children@).contains(project_content_name()) ==> r is Ok,
{
    let location = match LocationData::for_project(dir, config) {
        Ok(l) => l,
        Err(e) => {
            return Err(ItemError::at(dir, e));
        },
    };
    let ghost names = names_view(children@);
    let mut found = false;
    let mut images: Vec<String> = Vec::new();
    let mut i: usize = 0;
    assert(names.take(0) =~= Seq::<Seq<char>>::empty());
    while i < children.len()
        invariant
            i <= children.len(),
            names == names_view(children@),
            found == names.take(i as int).contains(project_content_name()),
            names_view(images@) == images_of(names.take(i as int)),
        decreases children.len() - i,
    {
        let name = children[i].as_str();
        assert(names.take(i + 1).drop_last() =~= names.take(i as int));
        assert(names.take(i + 1).last() == name@);
        if same_text(name, "post.html") {
            found = true;
        }
        if is_image_name(name) {
            let ghost before = images@;
            images.push(children[i].clone());
            assert(names_view(images@) =~= names_view(before).push(name@));
        } else {
            assert(images_of(names.take(i + 1)) =~= images_of(names.take(i as int)));
        }
        proof {
            assert(names.take(i + 1) =~= names.take(i as int).push(name@));
            if found {
                if names.take(i as int).contains(project_content_name()) {
                    let k = choose|k: int| 0 <= k < i && names.take(i as int)[k] == project_content_name();
                    assert(names.take(i + 1)[k] == project_content_name());
                } else {
                    assert(names.take(i + 1)[i as int] == project_content_name());
                }
            } else {
                assert forall|k: int| 0 <= k < i + 1 implies #[trigger] names.take(i + 1)[k] != project_content_name() by {
                    if k < i {
                        assert(names.take(i + 1)[k] == names.take(i as int)[k]);
                    }
                }
            }
        }
        i = i + 1;
    }
    assert(names.take(i as int) =~= names);
    if !found {
        return Err(ItemError::at(dir, ContentError::MissingProjectContent));
    }
    let path = join_path(dir, "post.html");
    let dir_url = match file_name_of(dir) {
        Some(name) => join_path("photos", name.as_str()),
        None => {
            return Err(ItemError::at(dir, ContentError::MissingFileName));
        },
    };
    Ok(
        ContentSource {
            path,
            kind: PostSourceKind::Html,
            location,
            item: ContentKind::PhotoProject { dir_url, images },
        },
    )
}

} // verus!

verus! {

/// The text of an item: its metadata, its body as written and as HTML, and
/// for a markdown body its plain text.
#[derive(Debug, Clone)]
pub struct Post {
    pub metadata: Metadata,
    pub raw: String,
    pub html: String,
    pub text: Option<String>,
}

/// One content item, ready for rendering.
#[derive(Debug, Clone)]
pub struct Content {
    /// Whether the item is only listed, with no page of its own
    pub bare: bool,
    /// Whether the item is visible at all
    pub publish: bool,
    pub location: LocationData,
    pub post: Post,
    pub kind: ContentKind,
}

impl Content {
    /// The item made from `source` whose file holds the entries `es` and the body `b`.
    pub open spec fn made_of(
        &self,
        source: ContentSource,
        es: Seq<(Seq<char>, Seq<char>)>,
        b: Seq<char>,
    ) -> bool {
        &&& self.post.metadata.describes(es)
        &&& self.post.raw@ == b
        &&& self.post.html@ == converted(b, source.kind).0
        &&& crate::front_matter::opt_view(self.post.text) == converted(b, source.kind).1
        &&& self.publish == self.post.metadata.publish
        &&& self.bare == self.post.metadata.bare
        &&& self.location == source.location
        &&& self.kind == source.item
    }
}

/// Makes the item of a classified source from the text of its file.
pub fn build_content(source: ContentSource, text: &str) -> (r: Result<Content, ItemError>)
    ensures
        match document(text@) {
            Ok((es, b)) => r matches Ok(c) && c.made_of(source, es, b),
            Err(e) => r matches Err(x) && x.path@ == source.path@ && x.error@ == e,
        },
{
    let (metadata, raw) = match parse_document(text) {
        Ok(d) => d,
        Err(e) => {
            return Err(ItemError::at(source.path.as_str(), e));
        },
    };
    let (html, body_text) = convert_body(raw.as_str(), source.kind);
    let publish = metadata.publish;
    let bare = metadata.bare;
    Ok(
        Content {
            bare,
            publish,
            location: source.location,
            post: Post { metadata, raw, html, text: body_text },
            kind: source.item,
        },
    )
}

} // verus!

verus! {

/// Where an item's page goes is a function of its source path and the
/// output directory alone: `<output>/<subdir>/<stem>.html`. Two sources
/// with the same file stem get the same destination, so the later write
/// of the two wins.
pub proof fn lemma_destination_is_pure(
    a: LocationData,
    b: LocationData,
    src_a: Seq<char>,
    src_b: Seq<char>,
    subdir: Seq<char>,
    output: Seq<char>,
)
    requires
        a.places(src_a, subdir, output),
        b.places(src_b, subdir, output),
        stem(file_name(src_a)->0) == stem(file_name(src_b)->0),
    ensures
        a.dst@ == join(output, join(subdir, stem(file_name(src_a)->0) + ".html"@)),
        a.url@ == b.url@,
        a.dst@ == b.dst@,
{
}

} // verus!

verus! {

/// A content file whose front matter is closed and well formed but has no
/// `title` fails with `FrontMatterIncomplete("title")`, attributed by
/// `build_content` to the file's path; and a strict gathering that holds
/// any failure fails.
pub proof fn lemma_missing_title_fails(
    text: Seq<char>,
    rs: Seq<Result<Content, ItemError>>,
    i: int,
)
    requires
        split_front_matter(text) is Some,
        parse_entries(lines((split_front_matter(text)->0).0)) is Ok,
        lookup(parse_entries(lines((split_front_matter(text)->0).0))->Ok_0, "title"@) is None,
        0 <= i < rs.len(),
        rs[i] is Err,
    ensures
        document(text) == Err::<(Seq<(Seq<char>, Seq<char>)>, Seq<char>), _>(
            ErrorKind::FrontMatterIncomplete("title"@),
        ),
        first_error(rs) is Some,
{
    lemma_first_error_none(rs);
}

} // verus!
