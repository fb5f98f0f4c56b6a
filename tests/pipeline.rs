use std::collections::HashMap;

use mub::{
    build_content, classify_file, classify_project, collect_batches, collect_batches_lenient, copy_jobs, convert_body,
    frame_array, frame_record, include_destination, parse_document, render_jobs,
    search_index_json, search_index_path, search_records, split_document, text_of_runs,
    write_front_matter, AvailableContent, Config, Content, ContentError, ContentKind, ItemError,
    LocationData, PostSourceKind,
};

fn config(search: bool, render: &[&str]) -> Config {
    Config {
        input: "site".to_string(),
        output: "output".to_string(),
        render: render.iter().map(|s| s.to_string()).collect(),
        search,
        site: HashMap::new(),
    }
}

fn post(path: &str, text: &str, cfg: &Config) -> Result<Content, ItemError> {
    let source = classify_file(path, cfg)?;
    build_content(source, text)
}

const HELLO: &str = "---\ntitle: Hi\ndate: 2024-01-01\npublish: true\n---\n# Hi\nWorld";

#[test]
fn markdown_post_renders_heading_and_paragraph() {
    let cfg = config(true, &[]);
    let c = post("posts/hello.md", HELLO, &cfg).unwrap();
    assert!(c.post.html.contains("<h1>Hi</h1>"));
    assert!(c.post.html.contains("<p>World</p>"));
    assert_eq!(c.post.text.as_deref(), Some("Hi World "));
    assert_eq!(c.location.dst, "output/posts/hello.html");
    assert_eq!(c.location.url, "posts/hello.html");
    assert_eq!(c.location.filename, "hello.html");
    assert_eq!(c.post.metadata.title, "Hi");
    assert_eq!(c.post.metadata.date, "2024-01-01");
    assert!(c.publish);
}

#[test]
fn markdown_post_search_index_record() {
    let cfg = config(true, &[]);
    let c = post("posts/hello.md", HELLO, &cfg).unwrap();
    let mut all = AvailableContent::at_time(0);
    all.push(c);
    assert_eq!(
        search_index_json(&all),
        r#"[{"path":"posts/hello.html","title":"Hi","date":"2024-01-01","text":"Hi World "}]"#
    );
    assert_eq!(search_index_path(&cfg).as_deref(), Some("output/search-index.json"));
    assert_eq!(search_index_path(&config(false, &[])), None);
}

#[test]
fn photo_project_page_and_image_copies() {
    let cfg = config(false, &[]);
    let children: Vec<String> =
        vec!["post.html".to_string(), "a.jpg".to_string(), "b.jpg".to_string()];
    let source = classify_project("projects/trip", &children, &cfg).unwrap();
    assert_eq!(source.path, "projects/trip/post.html");
    assert_eq!(source.kind, PostSourceKind::Html);
    let c = build_content(source, "---\ntitle: Trip\ndate: 2024-02-02\npublish: true\n---\n<p>x</p>")
        .unwrap();
    assert_eq!(c.location.dst, "output/photos/trip.html");
    assert_eq!(c.post.html, "\n<p>x</p>");
    assert_eq!(c.post.text, None);
    match &c.kind {
        ContentKind::PhotoProject { dir_url, images } => {
            assert_eq!(dir_url, "photos/trip");
            assert_eq!(images, &vec!["a.jpg".to_string(), "b.jpg".to_string()]);
        }
        ContentKind::Post => panic!("not a photo project"),
    }
    let mut all = AvailableContent::at_time(0);
    all.push(c);
    let copies = copy_jobs(&all, &cfg);
    let mut pairs: Vec<(String, String)> =
        copies.into_iter().map(|j| (j.source, j.destination)).collect();
    pairs.sort();
    assert_eq!(
        pairs,
        vec![
            ("projects/trip/a.jpg".to_string(), "output/photos/trip/a.jpg".to_string()),
            ("projects/trip/b.jpg".to_string(), "output/photos/trip/b.jpg".to_string()),
        ]
    );
    let jobs = render_jobs(&all, &cfg);
    assert_eq!(jobs.len(), 1);
    assert_eq!(jobs[0].template, "project.html");
    assert_eq!(jobs[0].destination, "output/photos/trip.html");
}

#[test]
fn photo_project_without_content_file() {
    let cfg = config(false, &[]);
    let children: Vec<String> = vec!["a.jpg".to_string()];
    let e = classify_project("projects/trip", &children, &cfg).unwrap_err();
    assert_eq!(e.path, "projects/trip");
    assert!(matches!(e.error, ContentError::MissingProjectContent));
}

#[test]
fn missing_title_is_incomplete_and_names_the_file() {
    let cfg = config(false, &[]);
    let e = post("posts/bad.md", "---\ndate: 2024-01-01\n---\nbody", &cfg).unwrap_err();
    assert_eq!(e.path, "posts/bad.md");
    match e.error {
        ContentError::FrontMatterIncomplete { key } => assert_eq!(key, "title"),
        other => panic!("unexpected {other:?}"),
    }
}

#[test]
fn one_failure_fails_the_whole_collection() {
    let cfg = config(false, &[]);
    let good = post("posts/hello.md", HELLO, &cfg);
    let bad = post("posts/bad.md", "---\ndate: 2024-01-01\n---\nbody", &cfg);
    let e = collect_batches(7, vec![vec![good], vec![bad]]).unwrap_err();
    assert_eq!(e.path, "posts/bad.md");
}

#[test]
fn missing_date_is_incomplete() {
    let r = parse_document("title: x\n---\nbody");
    match r {
        Err(ContentError::FrontMatterIncomplete { key }) => assert_eq!(key, "date"),
        other => panic!("unexpected {other:?}"),
    }
}

#[test]
fn line_without_colon_is_malformed() {
    match parse_document("---\ntitle: a\ndate: b\nnot a pair\n---\nbody") {
        Err(ContentError::FrontMatterMalformed { line }) => assert_eq!(line, "not a pair"),
        other => panic!("unexpected {other:?}"),
    }
}

#[test]
fn unterminated_front_matter_fails() {
    assert!(matches!(
        parse_document("---\ntitle: a\ndate: b\n"),
        Err(ContentError::MarkdownParseFailed)
    ));
    assert!(matches!(parse_document("no delimiter"), Err(ContentError::MarkdownParseFailed)));
}

#[test]
fn front_matter_without_opening_delimiter() {
    let (m, body) = parse_document("title: T\ndate: D\n---\nrest --- more").unwrap();
    assert_eq!(m.title, "T");
    assert_eq!(m.date, "D");
    assert_eq!(body, "\nrest --- more");
}

#[test]
fn values_are_trimmed_and_last_key_wins() {
    let (m, _) = parse_document(
        "---\r\n  title :  First  \r\ndate: 2020\r\ntitle: Second\r\nname: n: with colon\r\ntemplate: t.html\r\nbare: true\r\npublish: yes\r\n---\r\n",
    )
    .unwrap();
    assert_eq!(m.title, "Second");
    assert_eq!(m.date, "2020");
    assert_eq!(m.name.as_deref(), Some("n: with colon"));
    assert_eq!(m.template.as_deref(), Some("t.html"));
    assert!(m.bare);
    assert!(!m.publish);
    assert_eq!(m.extra.len(), 7);
    assert_eq!(m.extra[0], ("title".to_string(), "First".to_string()));
}

#[test]
fn unsupported_extension_and_missing_name() {
    let cfg = config(false, &[]);
    let e = classify_file("posts/notes.txt", &cfg).unwrap_err();
    match e.error {
        ContentError::UnsupportedExtension { extension } => assert_eq!(extension, "txt"),
        other => panic!("unexpected {other:?}"),
    }
    let e = classify_file("posts/README", &cfg).unwrap_err();
    match e.error {
        ContentError::UnsupportedExtension { extension } => assert_eq!(extension, ""),
        other => panic!("unexpected {other:?}"),
    }
    let e = classify_file("posts/..", &cfg).unwrap_err();
    assert!(matches!(e.error, ContentError::MissingFileName));
    let s = classify_file("a/b/page.html", &cfg).unwrap();
    assert_eq!(s.kind, PostSourceKind::Html);
    assert_eq!(s.location.dst, "output/posts/page.html");
}

#[test]
fn front_matter_round_trip() {
    let entries: Vec<(String, String)> = vec![
        ("title".to_string(), "A title: with colon".to_string()),
        ("date".to_string(), "2024-03-04".to_string()),
        ("tags".to_string(), "".to_string()),
    ];
    let text = write_front_matter(&entries);
    assert_eq!(text, "---\ntitle: A title: with colon\ndate: 2024-03-04\ntags: \n---");
    let body = "\n*body* --- here";
    let (m, b) = parse_document(&(text + body)).unwrap();
    assert_eq!(m.extra, entries);
    assert_eq!(b, body);
}

#[test]
fn split_document_parts() {
    let (f, b) = split_document("---a---b").unwrap();
    assert_eq!(f, "a");
    assert_eq!(b, "b");
    let (f, b) = split_document("x---y").unwrap();
    assert_eq!(f, "x");
    assert_eq!(b, "y");
    assert!(split_document("---only").is_none());
}

#[test]
fn text_runs_are_joined_in_order() {
    let runs = vec![Some("a".to_string()), None, Some("b c".to_string()), None];
    assert_eq!(text_of_runs(&runs), "a b c ");
    assert_eq!(text_of_runs(&vec![]), "");
    let (html, text) = convert_body("Some *emph* and `code`", PostSourceKind::Markdown);
    assert_eq!(html, "<p>Some <em>emph</em> and <code>code</code></p>\n");
    assert_eq!(text.as_deref(), Some("Some  emph  and  "));
    let (html, text) = convert_body("<b>x</b>", PostSourceKind::Html);
    assert_eq!(html, "<b>x</b>");
    assert_eq!(text, None);
}

#[test]
fn gathering_keeps_every_item_under_any_batching() {
    let cfg = config(false, &[]);
    let make = |i: usize| post(&format!("posts/p{i}.md"), HELLO, &cfg);
    let one = collect_batches(1, vec![(0..5).map(make).collect()]).unwrap();
    let many = collect_batches(1, (0..5).map(|i| vec![make(i)]).collect()).unwrap();
    let uneven =
        collect_batches(1, vec![vec![make(3), make(1)], vec![], vec![make(0), make(4), make(2)]])
            .unwrap();
    assert_eq!(one.content.len(), 5);
    assert_eq!(many.content.len(), 5);
    assert_eq!(uneven.content.len(), 5);
    let names = |a: &AvailableContent| {
        let mut v: Vec<String> = a.content.iter().map(|c| c.location.src.clone()).collect();
        v.sort();
        v
    };
    assert_eq!(names(&one), names(&many));
    assert_eq!(names(&one), names(&uneven));
    assert_eq!(one.at, 1);
    assert!(collect_batches(3, vec![]).unwrap().content.is_empty());
}

#[test]
fn destination_depends_on_path_and_output_only() {
    let cfg = config(false, &[]);
    let a = LocationData::for_post("content/x.md".to_string(), &cfg).unwrap();
    let b = LocationData::for_post("content/x.md".to_string(), &cfg).unwrap();
    let c = LocationData::for_post("elsewhere/x.html".to_string(), &cfg).unwrap();
    assert_eq!(a.dst, b.dst);
    assert_eq!(a.dst, c.dst);
    assert_eq!(a.dst, "output/posts/x.html");
    let d = LocationData::for_post("content/.hidden".to_string(), &cfg).unwrap();
    assert_eq!(d.filename, ".hidden.html");
    let e = LocationData::for_post("a.tar.gz".to_string(), &cfg).unwrap();
    assert_eq!(e.url, "posts/a.tar.html");
    let f = LocationData::for_post("dir/".to_string(), &cfg).unwrap();
    assert_eq!(f.filename, "dir.html");
    let g = LocationData::for_post("a/b.md/.".to_string(), &cfg).unwrap();
    assert_eq!(g.filename, "b.html");
    for none in ["", "/", ".", "a/..", "a/../", "/."] {
        assert!(
            matches!(
                LocationData::for_post(none.to_string(), &cfg),
                Err(ContentError::MissingFileName)
            ),
            "{none}"
        );
    }
}

#[test]
fn render_jobs_skip_unpublished_and_bare_then_add_pages() {
    let cfg = config(false, &["index.html", "search.html"]);
    let shown = post("c/a.md", HELLO, &cfg).unwrap();
    let hidden = post("c/b.md", "---\ntitle: B\ndate: d\n---\n", &cfg).unwrap();
    let bare = post("c/c.md", "---\ntitle: C\ndate: d\npublish: true\nbare: true\n---\n", &cfg)
        .unwrap();
    let custom =
        post("c/d.md", "---\ntitle: D\ndate: d\npublish: true\ntemplate: x.html\n---\n", &cfg)
            .unwrap();
    let all = collect_batches(0, vec![vec![Ok(shown), Ok(hidden), Ok(bare), Ok(custom)]]).unwrap();
    let jobs = render_jobs(&all, &cfg);
    let view: Vec<(String, String, Option<usize>)> =
        jobs.into_iter().map(|j| (j.template, j.destination, j.item)).collect();
    assert_eq!(
        view,
        vec![
            ("post.html".to_string(), "output/posts/a.html".to_string(), Some(0)),
            ("x.html".to_string(), "output/posts/d.html".to_string(), Some(3)),
            ("index.html".to_string(), "output/index.html".to_string(), None),
            ("search.html".to_string(), "output/search.html".to_string(), None),
        ]
    );
    let records = search_records(&all);
    assert_eq!(records.len(), 3);
    assert_eq!(records[2].title, "D");
    assert_eq!(records[1].text, "");
}

#[test]
fn search_index_escapes_and_frames() {
    let cfg = config(true, &[]);
    let c = post("p/q.html", "---\ntitle: say \"hi\"\ndate: d\npublish: true\n---\na\\b", &cfg)
        .unwrap();
    let mut all = AvailableContent::at_time(0);
    all.push(c);
    assert_eq!(
        search_index_json(&all),
        r#"[{"path":"posts/q.html","title":"say \"hi\"","date":"d","text":"\na\\b"}]"#
    );
    assert_eq!(search_index_json(&AvailableContent::at_time(0)), "[]");
    assert_eq!(frame_record("1", "2", "3", "4"), r#"{"path":1,"title":2,"date":3,"text":4}"#);
    assert_eq!(frame_array(&vec!["1".to_string(), "[]".to_string()]), "[1,[]]");
}

#[test]
fn include_files_mirror_their_tree() {
    let cfg = config(false, &[]);
    assert_eq!(
        include_destination(&cfg, "site/include/css/a.css").as_deref(),
        Some("output/css/a.css")
    );
    assert_eq!(include_destination(&cfg, "site/includes/a.css"), None);
    assert_eq!(include_destination(&cfg, "site/include"), None);
    assert_eq!(cfg.content_dir(), "site/content");
    assert_eq!(cfg.templates_dir(), "site/templates");
}

#[test]
fn default_collection_is_empty() {
    let a = AvailableContent::default();
    assert!(a.content.is_empty());
    let mut b = AvailableContent::at_time(5);
    b.append(AvailableContent::at_time(6));
    assert_eq!(b.at, 5);
}

#[test]
fn lenient_gathering_keeps_valid_items_and_reports_failures() {
    let cfg = config(false, &[]);
    let good = post("posts/hello.md", HELLO, &cfg);
    let bad = post("posts/bad.md", "---\ndate: 2024-01-01\n---\nbody", &cfg);
    let other = post("posts/other.html", "title: O\ndate: x\n---\n<p>o</p>", &cfg);
    let (all, errors) = collect_batches_lenient(9, vec![vec![good, bad], vec![other]]);
    assert_eq!(all.at, 9);
    assert_eq!(all.content.len(), 2);
    assert_eq!(all.content[0].location.url, "posts/hello.html");
    assert_eq!(all.content[1].location.url, "posts/other.html");
    assert_eq!(errors.len(), 1);
    assert_eq!(errors[0].path, "posts/bad.md");
    assert!(matches!(errors[0].error, ContentError::FrontMatterIncomplete { .. }));
}

#[test]
fn bare_carriage_return_line_is_malformed() {
    match parse_document("title: t\ndate: d\n\r---\nbody") {
        Err(ContentError::FrontMatterMalformed { line }) => assert_eq!(line, "\r"),
        other => panic!("unexpected {other:?}"),
    }
    let (m, _) = parse_document("title: t\r\ndate: d\r\n---").unwrap();
    assert_eq!(m.date, "d");
}

#[test]
fn search_index_escapes_control_characters() {
    let cfg = config(true, &[]);
    let c = post("p/c.html", "---\ntitle: t\ndate: d\npublish: true\n---\u{1}\t\u{1f}/é", &cfg)
        .unwrap();
    let mut all = AvailableContent::at_time(0);
    all.push(c);
    assert_eq!(
        search_index_json(&all),
        r#"[{"path":"posts/c.html","title":"t","date":"d","text":"\u0001\t\u001f/é"}]"#
    );
}
