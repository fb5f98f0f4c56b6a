//! What one run writes: a page per shown item, the configured top-level
//! pages, the images of photo projects, and the files of the include tree.
use vstd::prelude::*;

use crate::collection::AvailableContent;
use crate::config::Config;
use crate::content::{Content, ContentKind};
use crate::paths::{join, join_path};

verus! {

/// Whether an item gets a page of its own: it is published and not bare.
/// An unpublished item gets no page and no search record; it stays in the
/// collection that top-level pages see.
pub open spec fn is_rendered(c: Content) -> bool {
    c.publish && !c.bare
}

/// The template of an item: the one its metadata names, else the default
/// of its kind.
pub open spec fn template_of(c: Content) -> Seq<char> {
    match c.post.metadata.template {
        Some(t) => t@,
        None => match c.kind {
            ContentKind::Post => "post.html"@,
            ContentKind::PhotoProject { .. } => "project.html"@,
        },
    }
}

impl Content {
    /// The name of the template that renders this item.
    pub fn template_name(&self) -> (r: String)
        ensures
            r@ == template_of(*self),
    {
        match &self.post.metadata.template {
            Some(t) => t.clone(),
            None => match &self.kind {
                ContentKind::Post => String::from_str("post.html"),
                ContentKind::PhotoProject { .. } => String::from_str("project.html"),
            },
        }
    }
}

/// One page to render: the template, where the output goes, and the item
/// it shows (none for a top-level page, which shows the whole collection).
#[derive(Debug, Clone)]
pub struct RenderJob {
    pub template: String,
    pub destination: String,
    pub item: Option<usize>,
}

/// One file to copy as it is.
#[derive(Debug, Clone)]
pub struct CopyJob {
    pub source: String,
    pub destination: String,
}

pub open spec fn render_view(j: RenderJob) -> (Seq<char>, Seq<char>, Option<usize>) {
    (j.template@, j.destination@, j.item)
}

pub open spec fn copy_view(j: CopyJob) -> (Seq<char>, Seq<char>) {
    (j.source@, j.destination@)
}

/// The pages of the first `n` items, in order.
pub open spec fn item_pages(cs: Seq<Content>, n: int) -> Seq<(Seq<char>, Seq<char>, Option<usize>)>
    decreases n,
{
    if n <= 0 {
        seq![]
    } else {
        item_pages(cs, n - 1) + if is_rendered(cs[n - 1]) {
            seq![(template_of(cs[n - 1]), cs[n - 1].location.dst@, Some((n - 1) as usize))]
        } else {
            seq![]
        }
    }
}

/// The top-level pages: each template of the configuration, written under
/// its own name into the output directory.
pub open spec fn top_pages(templates: Seq<String>, output: Seq<char>) -> Seq<
    (Seq<char>, Seq<char>, Option<usize>),
> {
    templates.map_values(|t: String| (t@, join(output, t@), None::<usize>))
}

/// Every page of a run: the item pages in collection order, then the
/// top-level pages in configured order.
pub fn render_jobs(contents: &AvailableContent, config: &Config) -> (r: Vec<RenderJob>)
    ensures
        r@.map_values(|j: RenderJob| render_view(j)) == item_pages(
            contents.content@,
            contents.content@.len() as int,
        ) + top_pages(config.render@, config.output@),
{
    let ghost cs = contents.content@;
    let mut jobs: Vec<RenderJob> = Vec::new();
    let mut i: usize = 0;
    while i < contents.content.len()
        invariant
            i <= cs.len(),
            cs == contents.content@,
            jobs@.map_values(|j: RenderJob| render_view(j)) == item_pages(cs, i as int),
        decreases cs.len() - i,
    {
        let c = &contents.content[i];
        let ghost before = jobs@.map_values(|j: RenderJob| render_view(j));
        if c.publish && !c.bare {
            let job = RenderJob {
                template: c.template_name(),
                destination: c.location.dst.clone(),
                item: Some(i),
            };
            jobs.push(job);
            assert(jobs@.map_values(|j: RenderJob| render_view(j)) =~= before.push(
                render_view(job),
            ));
        }
        assert(item_pages(cs, i + 1) =~= item_pages(cs, i as int) + if is_rendered(cs[i as int]) {
            seq![(template_of(cs[i as int]), cs[i as int].location.dst@, Some(i))]
        } else {
            seq![]
        });
        i = i + 1;
    }
    let ghost items = jobs@.map_values(|j: RenderJob| render_view(j));
    let mut k: usize = 0;
    while k < config.render.len()
        invariant
            k <= config.render.len(),
            jobs@.map_values(|j: RenderJob| render_view(j)) == items + top_pages(
                config.render@.take(k as int),
                config.output@,
            ),
        decreases config.render.len() - k,
    {
        let t = &config.render[k];
        let job = RenderJob {
            template: t.clone(),
            destination: join_path(config.output.as_str(), t.as_str()),
            item: None,
        };
        let ghost before = jobs@.map_values(|j: RenderJob| render_view(j));
        jobs.push(job);
        assert(jobs@.map_values(|j: RenderJob| render_view(j)) =~= before.push(render_view(job)));
        assert(top_pages(config.render@.take(k + 1), config.output@) =~= top_pages(
            config.render@.take(k as int),
            config.output@,
        ).push(render_view(job)));
        k = k + 1;
    }
    assert(config.render@.take(k as int) =~= config.render@);
    jobs
}

/// The image copies of one item: for a shown photo project, each image
/// from the project directory into its directory in the site.
pub open spec fn item_copies(c: Content, output: Seq<char>) -> Seq<(Seq<char>, Seq<char>)> {
    if is_rendered(c) {
        match c.kind {
            ContentKind::PhotoProject { dir_url, images } => images@.map_values(
                |n: String| (join(c.location.src@, n@), join(output, join(dir_url@, n@))),
            ),
            ContentKind::Post => seq![],
        }
    } else {
        seq![]
    }
}

/// The image copies of all items, in collection order.
pub open spec fn all_copies(cs: Seq<Content>, output: Seq<char>) -> Seq<(Seq<char>, Seq<char>)>
    decreases cs.len(),
{
    if cs.len() == 0 {
        seq![]
    } else {
        all_copies(cs.drop_last(), output) + item_copies(cs.last(), output)
    }
}

/// The images to copy for the shown photo projects.
pub fn copy_jobs(contents: &AvailableContent, config: &Config) -> (r: Vec<CopyJob>)
    ensures
        r@.map_values(|j: CopyJob| copy_view(j)) == all_copies(contents.content@, config.output@),
{
    let ghost cs = contents.content@;
    let ghost out = config.output@;
    let mut jobs: Vec<CopyJob> = Vec::new();
    let mut i: usize = 0;
    assert(cs.take(0) =~= Seq::<Content>::empty());
    while i < contents.content.len()
        invariant
            i <= cs.len(),
            cs == contents.content@,
            out == config.output@,
            jobs@.map_values(|j: CopyJob| copy_view(j)) == all_copies(cs.take(i as int), out),
        decreases cs.len() - i,
    {
        let c = &contents.content[i];
        assert(cs.take(i + 1).drop_last() =~= cs.take(i as int));
        let ghost start = jobs@.map_values(|j: CopyJob| copy_view(j));
        if c.publish && !c.bare {
            match &c.kind {
                ContentKind::PhotoProject { dir_url, images } => {
                    let mut k: usize = 0;
                    while k < images.len()
                        invariant
                            k <= images.len(),
                            out == config.output@,
                            jobs@.map_values(|j: CopyJob| copy_view(j)) == start
                                + images@.take(k as int).map_values(
                                |n: String| (join(c.location.src@, n@), join(out, join(dir_url@, n@))),
                            ),
                        decreases images.len() - k,
                    {
                        let name = images[k].as_str();
                        let job = CopyJob {
                            source: join_path(c.location.src.as_str(), name),
                            destination: join_path(
                                config.output.as_str(),
                                join_path(dir_url.as_str(), name).as_str(),
                            ),
                        };
                        let ghost before = jobs@.map_values(|j: CopyJob| copy_view(j));
                        jobs.push(job);
                        assert(jobs@.map_values(|j: CopyJob| copy_view(j)) =~= before.push(
                            copy_view(job),
                        ));
                        assert(images@.take(k + 1).map_values(
                            |n: String| (join(c.location.src@, n@), join(out, join(dir_url@, n@))),
                        ) =~= images@.take(k as int).map_values(
                            |n: String| (join(c.location.src@, n@), join(out, join(dir_url@, n@))),
                        ).push(copy_view(job)));
                        k = k + 1;
                    }
                    assert(images@.take(k as int) =~= images@);
                },
                ContentKind::Post => {
                    assert(start + item_copies(*c, out) =~= start);
                },
            }
        } else {
            assert(start + item_copies(*c, out) =~= start);
        }
        i = i + 1;
    }
    assert(cs.take(i as int) =~= cs);
    jobs
}

/// The path relative to `base` of a path under it.
pub open spec fn relative_to(base: Seq<char>, p: Seq<char>) -> Option<Seq<char>> {
    if p.len() > base.len() && p.subrange(0, base.len() as int) == base && p[base.len() as int]
        == '/' {
        Some(p.subrange(base.len() as int + 1, p.len() as int))
    } else {
        None
    }
}

/// Where a file of the include tree goes: the same place relative to the
/// output directory as it has relative to the include directory; none for
/// a file outside that directory.
pub fn include_destination(config: &Config, src: &str) -> (r: Option<String>)
    ensures
        match relative_to(join(config.input@, "include"@), src@) {
            Some(rel) => r matches Some(d) && d@ == join(config.output@, rel),
            None => r is None,
        },
{
    let base = config.include_dir();
    let b = base.unicode_len();
    let n = src.unicode_len();
    if n <= b {
        return None;
    }
    let mut i: usize = 0;
    while i < b
        invariant
            b == base@.len(),
            base@ == join(config.input@, "include"@),
            n == src@.len(),
            b < n,
            i <= b,
            forall|k: int| 0 <= k < i ==> src@[k] == base@[k],
        decreases b - i,
    {
        if src.get_char(i) != base.get_char(i) {
            assert(src@.subrange(0, b as int)[i as int] != base@[i as int]);
            return None;
        }
        i = i + 1;
    }
    assert(src@.subrange(0, b as int) =~= base@);
    if src.get_char(b) != '/' {
        return None;
    }
    let rel = crate::text::substring(src, b + 1, n);
    Some(join_path(config.output.as_str(), rel.as_str()))
}

} // verus!

verus! {

/// A shown photo project is copied image by image, each from the project
/// directory into `<output>/<dir_url>/`, where `classify_project` sets
/// `dir_url` to `photos/<name>`; its page is its location's destination.
pub proof fn lemma_project_copies(c: Content, output: Seq<char>)
    requires
        is_rendered(c),
        c.kind is PhotoProject,
    ensures
        ({
            let images = c.kind->PhotoProject_images;
            let dir_url = c.kind->PhotoProject_dir_url;
            &&& item_copies(c, output).len() == images@.len()
            &&& forall|i: int|
                0 <= i < images@.len() ==> #[trigger] item_copies(c, output)[i] == (
                    join(c.location.src@, images@[i]@),
                    join(output, join(dir_url@, images@[i]@)),
                )
        }),
{
}

} // verus!
