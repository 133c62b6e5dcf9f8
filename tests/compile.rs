use mandy::{
    build_context, build_sitemap, clean_data, clean_project, compile_loop_content_files, copy_files,
    copy_sources, ensure_outputs_absent, gather_project_data, get_layout_by_name,
    loop_content_outputs, output_dir_path, plan_pages, select_base_url, seo, stylesheet_paths,
    ConfigFile, EntryKind, LayoutFile, MandyConfig, MandyContent, MandyErr, ProjectTree, SiteInfo,
    SiteMap, SiteMapUrl, TreeEntry, UserDataFile, UserDataFileType,
};

fn s(x: &str) -> String {
    x.to_string()
}

fn config() -> MandyConfig {
    MandyConfig {
        tl_domain: s("https://example.org"),
        seo: true,
        title: s("Example"),
        dist_dir: s("dist"),
        description: s("An example"),
        prod_url: s("https://example.org"),
        dev_url: s("http://localhost:8000"),
        copy_files: true,
        has_loop_content: false,
        copy_entities: Some(vec![s("images"), s("favicon.ico"), s("gone.txt")]),
        loop_content_dirs: None,
        user_config: vec![(s("author"), s("Ann"))],
    }
}

fn layout(name: &str, contents: &str) -> LayoutFile {
    LayoutFile { name: s(name), path: format!("site/layouts/{}.liquid", name), contents: s(contents) }
}

fn item(layout: &str, url: &str, path: &str) -> MandyContent {
    MandyContent { layout: s(layout), params: Vec::new(), content: s("<p>x</p>"), url: s(url), path: s(path) }
}

fn site() -> SiteInfo {
    let tree = ProjectTree {
        entries: vec![
            TreeEntry { path: s("site"), is_dir: true, text: None },
            TreeEntry {
                path: s("site/index.markdown"),
                is_dir: false,
                text: Some(s("---\nlayout: page\n---\nHome")),
            },
            TreeEntry {
                path: s("site/about.markdown"),
                is_dir: false,
                text: Some(s("---\nlayout: page\n---\nAbout")),
            },
            TreeEntry { path: s("site/layouts"), is_dir: true, text: None },
            TreeEntry { path: s("site/layouts/page.liquid"), is_dir: false, text: Some(s("<b>{{ page.content }}</b>")) },
            TreeEntry { path: s("site/partials"), is_dir: true, text: None },
            TreeEntry { path: s("site/partials/nav.liquid"), is_dir: false, text: Some(s("<nav/>")) },
        ],
    };
    let cf = ConfigFile { path: s("site/config.json"), file_type: UserDataFileType::JSON, contents: config() };
    gather_project_data(&s("site"), &tree, cf).unwrap()
}

#[test]
fn layout_is_found_by_name() {
    let ls = vec![layout("post", "A"), layout("page", "B"), layout("post", "C")];
    let l = get_layout_by_name(&s("post"), &ls).unwrap();
    assert_eq!(l.contents, "A");
    assert_eq!(get_layout_by_name(&s("page"), &ls).unwrap().contents, "B");
}

#[test]
fn unknown_layout_is_reported_by_name() {
    let ls = vec![layout("post", "A")];
    assert_eq!(
        get_layout_by_name(&s("gallery"), &ls).unwrap_err().to_string(),
        "The requested layout \"gallery\" could not be found."
    );
}

#[test]
fn base_url_follows_the_environment() {
    let c = config();
    assert_eq!(select_base_url(&c, &s("production")).unwrap(), "https://example.org");
    assert_eq!(select_base_url(&c, &s("development")).unwrap(), "http://localhost:8000");
    assert_eq!(
        select_base_url(&c, &s("staging")).unwrap_err().to_string(),
        "The environment must be set to either \"production\" or \"development\"!"
    );
    assert!(select_base_url(&c, &s("")).is_err());
}

#[test]
fn pages_are_planned_in_content_order() {
    let info = site();
    let jobs = plan_pages(&info, &s("development")).unwrap();
    assert_eq!(jobs.len(), 2);
    assert_eq!(jobs[0].output, "site/dist/index.html");
    assert_eq!(jobs[1].output, "site/dist/about/index.html");
    assert_eq!(jobs[0].template, "<b>{{ page.content }}</b>");
    assert_eq!(jobs[1].context.page.url, "/about/");
    assert_eq!(jobs[1].context.baseurl, "http://localhost:8000");
    assert_eq!(jobs[1].context.site.title, "Example");
    assert_eq!(jobs[1].context.site.user_config, vec![(s("author"), s("Ann"))]);
    assert!(jobs[1].context.loop_content.is_none());
    assert!(jobs[1].context.data.is_none());
}

#[test]
fn planning_with_an_unknown_layout_fails() {
    let mut info = site();
    info.content_files[1].1.layout = s("gallery");
    assert_eq!(
        plan_pages(&info, &s("production")).unwrap_err().to_string(),
        "The requested layout \"gallery\" could not be found."
    );
}

#[test]
fn planning_in_an_unknown_environment_fails() {
    let mut info = site();
    info.content_files[1].1.layout = s("gallery");
    assert_eq!(
        plan_pages(&info, &s("test")).unwrap_err().to_string(),
        "The environment must be set to either \"production\" or \"development\"!"
    );
}

#[test]
fn second_compile_is_refused_before_writing() {
    let info = site();
    let jobs = plan_pages(&info, &s("production")).unwrap();
    assert!(ensure_outputs_absent(&jobs, &vec![false, false]).is_ok());
    assert_eq!(
        ensure_outputs_absent(&jobs, &vec![true, true]).unwrap_err().to_string(),
        "Filesystem at \"site/dist/index.html\" already exists."
    );
    assert_eq!(
        ensure_outputs_absent(&jobs, &vec![false, true]).unwrap_err().to_string(),
        "Filesystem at \"site/dist/about/index.html\" already exists."
    );
}

#[test]
fn context_carries_loop_content_and_data() {
    let mut info = site();
    info.loop_content = Some(vec![(s("blog"), vec![item("post", "/blog/a/", "site/dist/blog/a/index.html")])]);
    info.data_files = Some(vec![(
        s("team"),
        UserDataFile {
            path: s("site/data/team.yml"),
            file_name: s("team"),
            file_type: UserDataFileType::YAML,
            contents: vec![vec![(s("name"), s("Ann"))]],
        },
    )]);
    let ctx = build_context(&info, item("page", "/", "site/dist/index.html"), &s("https://example.org"));
    assert_eq!(ctx.loop_content.unwrap()[0].1[0].url, "/blog/a/");
    assert_eq!(ctx.data.unwrap(), vec![(s("team"), vec![vec![(s("name"), s("Ann"))]])]);
    assert_eq!(ctx.page.path, "site/dist/index.html");
}

#[test]
fn data_is_reduced_to_stems_and_records() {
    let files = vec![(
        s("key"),
        UserDataFile {
            path: s("site/data/team.json"),
            file_name: s("team"),
            file_type: UserDataFileType::JSON,
            contents: vec![vec![(s("a"), s("1"))], Vec::new()],
        },
    )];
    assert_eq!(clean_data(&files), vec![(s("team"), vec![vec![(s("a"), s("1"))], Vec::new()])]);
    assert!(clean_data(&Vec::new()).is_empty());
}

#[test]
fn loop_content_pages_must_exist() {
    let groups = vec![
        (s("blog"), vec![item("post", "/blog/a/", "d/blog/a/index.html"), item("post", "/blog/b/", "d/blog/b/index.html")]),
        (s("news"), vec![item("post", "/news/c/", "d/news/c/index.html")]),
    ];
    let outs = loop_content_outputs(&groups);
    assert_eq!(outs, vec![s("d/blog/a/index.html"), s("d/blog/b/index.html"), s("d/news/c/index.html")]);
    assert!(compile_loop_content_files(&outs, &vec![true, true, true]).is_ok());
    assert_eq!(
        compile_loop_content_files(&outs, &vec![true, false, false]).unwrap_err().to_string(),
        "The following file from the loop content directories could not be generated: \"d/blog/b/index.html\""
    );
}

#[test]
fn sitemap_document() {
    let map = SiteMap { urls: vec![SiteMapUrl { url: s("https://e.org/") }, SiteMapUrl { url: s("https://e.org/a/") }] };
    assert_eq!(
        map.to_string(),
        "<?xml version=\"1.0\" encoding=\"UTF-8\"?>\n<urlset xmlns=\"http://www.sitemaps.org/schemas/sitemap/0.9\">\n<url><loc>https://e.org/</loc></url>\n<url><loc>https://e.org/a/</loc></url></urlset>"
    );
    assert_eq!(SiteMapUrl { url: s("u") }.to_string(), "<url><loc>u</loc></url>");
}

#[test]
fn sitemap_urls_join_domain_and_links() {
    let contents = vec![(s("a.markdown"), item("p", "/a/", "x")), (s("b.markdown"), item("p", "/", "y"))];
    let map = build_sitemap(&s("https://e.org"), &contents);
    let urls: Vec<String> = map.urls.iter().map(|u| u.url.clone()).collect();
    assert_eq!(urls, vec![s("https://e.org/a/"), s("https://e.org/")]);
}

#[test]
fn seo_files_are_prepared() {
    let contents = vec![(s("site/a.markdown"), item("p", "/a/", "x"))];
    let files = seo(&s("site"), &config(), &contents, true, false, false).unwrap().unwrap();
    assert_eq!(files.sitemap_path, "site/dist/sitemap.xml");
    assert_eq!(files.robots_path, "site/dist/robots.txt");
    assert_eq!(files.robots, "User-Agent: *\nDisallow:\n\nSitemap: https://example.org/sitemap.xml");
    assert!(files.sitemap.contains("<url><loc>https://example.org/a/</loc></url>"));
}

#[test]
fn seo_decisions() {
    let contents = Vec::new();
    let mut off = config();
    off.seo = false;
    assert!(seo(&s("site"), &off, &contents, false, true, true).unwrap().is_none());
    assert_eq!(
        seo(&s("site"), &config(), &contents, false, false, false).unwrap_err().to_string(),
        "The directory \"site/dist\" does not exist."
    );
    assert_eq!(
        seo(&s("site"), &config(), &contents, true, true, false).unwrap_err().to_string(),
        "The files \"site/dist/sitemap.xml\" and \"site/dist/robots.txt\" already exist."
    );
}

#[test]
fn clean_removes_only_the_output_directory() {
    assert_eq!(output_dir_path(&s("site"), &config()), "site/dist");
    assert_eq!(output_dir_path(&s("/srv/site/"), &config()), "/srv/site/dist");
}

#[test]
fn stylesheet_output_paths() {
    let (d, f) = stylesheet_paths(&s("site"), &config());
    assert_eq!(d, "site/dist/css");
    assert_eq!(f, "site/dist/css/index.css");
}

#[test]
fn assets_are_planned_by_kind() {
    let c = config();
    let sources = copy_sources(&s("site"), &c).unwrap();
    assert_eq!(sources, vec![s("site/images"), s("site/favicon.ico"), s("site/gone.txt")]);
    let mut two = c.clone();
    two.copy_entities = Some(vec![s("images"), s("favicon.ico")]);
    let jobs = copy_files(&s("site"), &two, &vec![EntryKind::Directory, EntryKind::File]).unwrap();
    assert_eq!(jobs[0].from, "site/images");
    assert_eq!(jobs[0].to, "site/dist");
    assert!(jobs[0].is_dir);
    assert_eq!(jobs[1].to, "site/dist/favicon.ico");
    assert!(!jobs[1].is_dir);
    assert_eq!(
        copy_files(&s("site"), &c, &vec![EntryKind::File, EntryKind::File, EntryKind::Missing])
            .unwrap_err()
            .to_string(),
        "The file at the path \"site/gone.txt\" could not be found!"
    );
}

#[test]
fn asset_flag_without_assets_fails() {
    let mut c = config();
    c.copy_entities = None;
    assert_eq!(
        copy_sources(&s("site"), &c).unwrap_err().to_string(),
        "The \"copy_files\" option was set to \"true\" but no entities were supplied."
    );
    assert_eq!(
        copy_files(&s("site"), &c, &Vec::new()).unwrap_err().to_string(),
        "The \"copy_files\" option was set to \"true\" but no entities were supplied."
    );
    c.copy_files = false;
    assert!(copy_sources(&s("site"), &c).unwrap().is_empty());
    assert!(copy_files(&s("site"), &c, &Vec::new()).unwrap().is_empty());
}

#[test]
fn error_keeps_its_message() {
    assert_eq!(MandyErr::new("boom").to_string(), "boom");
    assert_eq!(MandyErr::new("boom"), MandyErr { details: s("boom") });
}

#[test]
fn clean_needs_an_output_directory() {
    assert_eq!(clean_project(&s("site"), &config(), true).unwrap(), "site/dist");
    assert_eq!(
        clean_project(&s("site"), &config(), false).unwrap_err().to_string(),
        "The directory \"site/dist\" does not exist."
    );
}

#[test]
fn empty_asset_list_fails() {
    let mut c = config();
    c.copy_entities = Some(Vec::new());
    assert_eq!(
        copy_sources(&s("site"), &c).unwrap_err().to_string(),
        "The \"copy_files\" option was set to \"true\" but no entities were supplied."
    );
    assert_eq!(
        copy_files(&s("site"), &c, &Vec::new()).unwrap_err().to_string(),
        "The \"copy_files\" option was set to \"true\" but no entities were supplied."
    );
}

#[test]
fn planned_pages_see_loop_content_and_data() {
    let mut info = site();
    info.loop_content = Some(vec![(s("blog"), vec![item("page", "/blog/a/", "site/dist/blog/a/index.html")])]);
    info.data_files = Some(vec![(
        s("team"),
        UserDataFile {
            path: s("site/data/team.yml"),
            file_name: s("team"),
            file_type: UserDataFileType::YAML,
            contents: vec![vec![(s("name"), s("Ann"))]],
        },
    )]);
    let jobs = plan_pages(&info, &s("production")).unwrap();
    for j in &jobs {
        assert_eq!(j.context.loop_content.as_ref().unwrap()[0].0, "blog");
        assert_eq!(j.context.data.as_ref().unwrap()[0].0, "team");
        assert_eq!(j.context.site.dist_dir, "dist");
    }
}
