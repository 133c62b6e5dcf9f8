use mandy::{
    check_config, route_content, find_files_with_ending, find_layout_files, find_loop_content_files, find_markdown_files,
    find_sass_files, gather_project_data, read_config, read_data_files, retrieve_partials,
    ConfigFile, MandyConfig, ProjectTree, TreeEntry, UserDataFileType,
};

fn s(x: &str) -> String {
    x.to_string()
}

fn dir(p: &str) -> TreeEntry {
    TreeEntry { path: s(p), is_dir: true, text: None }
}

fn file(p: &str, text: &str) -> TreeEntry {
    TreeEntry { path: s(p), is_dir: false, text: Some(s(text)) }
}

fn config() -> MandyConfig {
    MandyConfig {
        tl_domain: s("https://example.org"),
        seo: true,
        title: s("Example"),
        dist_dir: s("dist"),
        description: s("An example"),
        prod_url: s("https://example.org"),
        dev_url: s("http://localhost:8000"),
        copy_files: false,
        has_loop_content: true,
        copy_entities: None,
        loop_content_dirs: Some(vec![s("blog")]),
        user_config: Vec::new(),
    }
}

fn project() -> ProjectTree {
    ProjectTree {
        entries: vec![
            dir("site"),
            file("site/config.json", "{}"),
            file("site/config.yml", "title: x"),
            dir("site/content"),
            file("site/content/index.markdown", "---\nlayout: page\n---\n# Home"),
            file("site/content/post.markdown", "---\nlayout: post\n---\nText"),
            dir("site/blog"),
            file("site/blog/first.markdown", "---\nlayout: post\ntitle: First\n---\nFirst"),
            dir("site/layouts"),
            file("site/layouts/post.liquid", "<main>{{ page.content }}</main>"),
            file("site/layouts/page.liquid", "<div>{{ page.content }}</div>"),
            dir("site/partials"),
            file("site/partials/nav.liquid", "<nav></nav>"),
            dir("site/data"),
            file("site/data/team.yml", "- name: Ann\n"),
            file("site/data/extra.json", "[{\"name\":\"Bob\"}]"),
            dir("site/sass"),
            file("site/sass/index.scss", "body { color: red; }"),
        ],
    }
}

#[test]
fn files_are_found_by_extension_below_a_directory() {
    let t = project();
    assert_eq!(find_files_with_ending(&t, &s("site/layouts"), "liquid"), Some(vec![9, 10]));
    assert_eq!(find_files_with_ending(&t, &s("site"), "markdown"), Some(vec![4, 5, 7]));
    assert_eq!(find_files_with_ending(&t, &s("site/content"), "liquid"), None);
}

#[test]
fn json_config_is_chosen_over_yaml() {
    let c = read_config(&s("site"), &project()).unwrap();
    assert_eq!(c.path, "site/config.json");
    assert_eq!(c.file_type, UserDataFileType::JSON);
    assert_eq!(c.text, "{}");
}

#[test]
fn yaml_config_is_used_alone() {
    let t = ProjectTree { entries: vec![dir("site"), file("site/config.yml", "title: x")] };
    let c = read_config(&s("site"), &t).unwrap();
    assert_eq!(c.path, "site/config.yml");
    assert_eq!(c.file_type, UserDataFileType::YAML);
}

#[test]
fn missing_config_fails() {
    let t = ProjectTree { entries: vec![dir("site")] };
    assert_eq!(
        read_config(&s("site"), &t).unwrap_err().to_string(),
        "No config file found in the directory \"site\"."
    );
}

#[test]
fn stylesheet_entry_is_found() {
    assert_eq!(find_sass_files(&s("site"), &project()).unwrap(), Some(s("site/sass/index.scss")));
}

#[test]
fn stylesheet_directory_without_entry_fails() {
    let t = ProjectTree { entries: vec![dir("site"), dir("site/sass"), file("site/sass/other.scss", "")] };
    assert_eq!(
        find_sass_files(&s("site"), &t).unwrap_err().to_string(),
        "The SASS directory at the path \"site/sass\" exists but does not contain an \"index.scss\" file."
    );
}

#[test]
fn stylesheets_are_optional() {
    let t = ProjectTree { entries: vec![dir("site")] };
    assert_eq!(find_sass_files(&s("site"), &t).unwrap(), None);
}

#[test]
fn layouts_are_read() {
    let ls = find_layout_files(&s("site"), &project()).unwrap();
    assert_eq!(ls.len(), 2);
    assert_eq!(ls[0].name, "post");
    assert_eq!(ls[0].path, "site/layouts/post.liquid");
    assert_eq!(ls[1].name, "page");
    assert_eq!(ls[1].contents, "<div>{{ page.content }}</div>");
}

#[test]
fn missing_or_empty_layouts_fail() {
    let none = ProjectTree { entries: vec![dir("site")] };
    assert_eq!(
        find_layout_files(&s("site"), &none).unwrap_err().to_string(),
        "The directory for layouts \"site/layouts\" does not exist."
    );
    let empty = ProjectTree { entries: vec![dir("site"), dir("site/layouts")] };
    assert_eq!(
        find_layout_files(&s("site"), &empty).unwrap_err().to_string(),
        "No layout files found at the following path: \"site/layouts\"!"
    );
}

#[test]
fn unreadable_layout_fails() {
    let t = ProjectTree {
        entries: vec![
            dir("site"),
            dir("site/layouts"),
            TreeEntry { path: s("site/layouts/a.liquid"), is_dir: false, text: None },
        ],
    };
    assert_eq!(
        find_layout_files(&s("site"), &t).unwrap_err().to_string(),
        "The file \"site/layouts/a.liquid\" could not be read as text."
    );
}

#[test]
fn partials_are_read_by_stem() {
    let ps = retrieve_partials(&s("site"), &project()).unwrap();
    assert_eq!(ps, vec![(s("nav"), s("<nav></nav>"))]);
}

#[test]
fn missing_or_empty_partials_fail() {
    let none = ProjectTree { entries: vec![dir("site")] };
    assert_eq!(
        retrieve_partials(&s("site"), &none).unwrap_err().to_string(),
        "The directory for partial templates was not found."
    );
    let empty = ProjectTree { entries: vec![dir("site"), dir("site/partials")] };
    assert_eq!(
        retrieve_partials(&s("site"), &empty).unwrap_err().to_string(),
        "The directory containing partial templates cannot be empty."
    );
}

#[test]
fn yaml_data_files_are_preferred() {
    let ds = read_data_files(&s("site"), &project()).unwrap().unwrap();
    assert_eq!(ds.len(), 1);
    assert_eq!(ds[0].0, "team");
    assert_eq!(ds[0].1.file_name, "team");
    assert_eq!(ds[0].1.file_type, UserDataFileType::YAML);
    assert_eq!(ds[0].1.contents, vec![vec![(s("name"), s("Ann"))]]);
}

#[test]
fn json_data_files_are_the_fallback() {
    let t = ProjectTree {
        entries: vec![dir("site"), dir("site/data"), file("site/data/extra.json", "[{\"name\":\"Bob\"}]")],
    };
    let ds = read_data_files(&s("site"), &t).unwrap().unwrap();
    assert_eq!(ds[0].1.file_type, UserDataFileType::JSON);
    assert_eq!(ds[0].1.contents, vec![vec![(s("name"), s("Bob"))]]);
}

#[test]
fn data_directory_is_optional_but_not_empty() {
    let none = ProjectTree { entries: vec![dir("site")] };
    assert!(read_data_files(&s("site"), &none).unwrap().is_none());
    let empty = ProjectTree { entries: vec![dir("site"), dir("site/data")] };
    assert_eq!(
        read_data_files(&s("site"), &empty).unwrap_err().to_string(),
        "The project's \"data\" directory cannot be empty."
    );
    let bad = ProjectTree { entries: vec![dir("site"), dir("site/data"), file("site/data/x.json", "nope")] };
    let msg = read_data_files(&s("site"), &bad).unwrap_err().to_string();
    assert!(msg.starts_with("The data file \"site/data/x.json\" could not be parsed: "));
    assert!(msg.len() > "The data file \"site/data/x.json\" could not be parsed: ".len());
}

#[test]
fn content_files_are_parsed_and_routed() {
    let cs = find_markdown_files(&s("site"), &project(), &config()).unwrap();
    assert_eq!(cs.len(), 3);
    assert_eq!(cs[0].0, "site/content/index.markdown");
    assert_eq!(cs[0].1.layout, "page");
    assert_eq!(cs[0].1.content, "<h1>Home</h1>");
    assert_eq!(cs[0].1.path, "site/dist/content/index.html");
    assert_eq!(cs[0].1.url, "/content/");
    assert_eq!(cs[1].1.path, "site/dist/content/post/index.html");
    assert_eq!(cs[1].1.url, "/content/post/");
    assert_eq!(cs[2].1.url, "/blog/first/");
}

#[test]
fn no_content_files_fails() {
    let t = ProjectTree { entries: vec![dir("site")] };
    assert_eq!(
        find_markdown_files(&s("site"), &t, &config()).unwrap_err().to_string(),
        "No files ending in \".markdown\" found at the path \"site\"."
    );
}

#[test]
fn loop_content_flag_without_directories_fails() {
    let mut c = config();
    c.loop_content_dirs = None;
    assert_eq!(
        find_loop_content_files(&s("site"), &project(), &c).unwrap_err().to_string(),
        "The \"has_loop_content\" flag was set to \"true\" but directories containing such content were not specified."
    );
}

#[test]
fn loop_content_is_grouped_by_directory() {
    let gs = find_loop_content_files(&s("site"), &project(), &config()).unwrap().unwrap();
    assert_eq!(gs.len(), 1);
    assert_eq!(gs[0].0, "blog");
    assert_eq!(gs[0].1.len(), 1);
    assert_eq!(gs[0].1[0].path, "site/dist/blog/first/index.html");
    assert_eq!(gs[0].1[0].url, "/blog/first/");
}

#[test]
fn loop_content_is_off_without_the_flag() {
    let mut c = config();
    c.has_loop_content = false;
    assert!(find_loop_content_files(&s("site"), &project(), &c).unwrap().is_none());
}

#[test]
fn empty_loop_directory_fails() {
    let mut c = config();
    c.loop_content_dirs = Some(vec![s("news")]);
    assert_eq!(
        find_loop_content_files(&s("site"), &project(), &c).unwrap_err().to_string(),
        "No files ending in \".markdown\" found at the path \"site/news\"."
    );
}

#[test]
fn project_is_assembled() {
    let cf = ConfigFile { path: s("site/config.json"), file_type: UserDataFileType::JSON, contents: config() };
    let info = gather_project_data(&s("site"), &project(), cf).unwrap();
    assert_eq!(info.content_files.len(), 3);
    assert_eq!(info.layouts.len(), 2);
    assert_eq!(info.partials.len(), 1);
    assert_eq!(info.sass_dir, Some(s("site/sass/index.scss")));
    assert!(info.data_files.is_some());
    assert_eq!(info.loop_content.unwrap().len(), 1);
    assert_eq!(info.config.path, "site/config.json");
}

#[test]
fn assembly_stops_at_the_first_failure() {
    let mut t = project();
    t.entries.retain(|e| !e.path.starts_with("site/partials"));
    let cf = ConfigFile { path: s("site/config.json"), file_type: UserDataFileType::JSON, contents: config() };
    assert_eq!(
        gather_project_data(&s("site"), &t, cf).unwrap_err().to_string(),
        "The directory for partial templates was not found."
    );
}

#[test]
fn configuration_invariants_are_checked() {
    assert!(check_config(&config()).is_ok());
    let mut c = config();
    c.dist_dir = s("");
    assert_eq!(check_config(&c).unwrap_err().to_string(), "The \"dist_dir\" option cannot be empty.");
    let mut c = config();
    c.copy_files = true;
    c.copy_entities = Some(Vec::new());
    assert_eq!(
        check_config(&c).unwrap_err().to_string(),
        "The \"copy_files\" option was set to \"true\" but no entities were supplied."
    );
    let mut c = config();
    c.loop_content_dirs = None;
    assert_eq!(
        check_config(&c).unwrap_err().to_string(),
        "The \"has_loop_content\" flag was set to \"true\" but directories containing such content were not specified."
    );
    let mut c = config();
    c.loop_content_dirs = Some(Vec::new());
    assert_eq!(check_config(&c).unwrap_err().to_string(), "The \"loop_content_dirs\" option cannot be empty.");
}

#[test]
fn empty_loop_directory_list_fails() {
    let mut c = config();
    c.loop_content_dirs = Some(Vec::new());
    assert_eq!(
        find_loop_content_files(&s("site"), &project(), &c).unwrap_err().to_string(),
        "The \"loop_content_dirs\" option cannot be empty."
    );
}

#[test]
fn loop_directory_named_twice_gives_one_group() {
    let mut c = config();
    c.loop_content_dirs = Some(vec![s("blog"), s("blog")]);
    let gs = find_loop_content_files(&s("site"), &project(), &c).unwrap().unwrap();
    assert_eq!(gs.len(), 1);
}

#[test]
fn duplicate_stems_keep_the_last_file() {
    let t = ProjectTree {
        entries: vec![
            dir("site"),
            dir("site/partials"),
            file("site/partials/a/nav.liquid", "first"),
            file("site/partials/foot.liquid", "foot"),
            file("site/partials/b/nav.liquid", "second"),
            dir("site/data"),
            file("site/data/a/team.yml", "- name: Ann\n"),
            file("site/data/b/team.yml", "- name: Bob\n"),
        ],
    };
    let ps = retrieve_partials(&s("site"), &t).unwrap();
    assert_eq!(ps, vec![(s("nav"), s("second")), (s("foot"), s("foot"))]);
    let ds = read_data_files(&s("site"), &t).unwrap().unwrap();
    assert_eq!(ds.len(), 1);
    assert_eq!(ds[0].1.path, "site/data/b/team.yml");
}

#[test]
fn routing_below_a_multi_segment_root() {
    let r = route_content(&s("/home/u/blog/content/post.markdown"), &s("/home/u/blog"), &s("dist")).unwrap();
    assert_eq!(r.on_disk_html_url, "/home/u/blog/dist/content/post/index.html");
    assert_eq!(r.web_link, "/content/post/");
    let i = route_content(&s("./site/index.markdown"), &s("./site"), &s("dist")).unwrap();
    assert_eq!(i.on_disk_html_url, "./site/dist/index.html");
    assert_eq!(i.web_link, "/");
    let t = route_content(&s("site/content/index.markdown"), &s("site/"), &s("dist")).unwrap();
    assert_eq!(t.on_disk_html_url, "site/dist/content/index.html");
    assert_eq!(t.web_link, "/content/");
}

#[test]
fn routing_with_an_output_named_segment_in_the_root() {
    let r = route_content(&s("dist/site/post.markdown"), &s("dist/site"), &s("dist")).unwrap();
    assert_eq!(r.on_disk_html_url, "dist/site/dist/post/index.html");
    assert_eq!(r.web_link, "/post/");
}

#[test]
fn routing_outside_the_root_fails() {
    assert_eq!(
        route_content(&s("other/post.markdown"), &s("site"), &s("dist")).unwrap_err().to_string(),
        "The path \"other/post.markdown\" is not inside the project directory \"site\"."
    );
}

#[test]
fn content_below_an_absolute_root_is_found() {
    let t = ProjectTree {
        entries: vec![
            dir("/srv/my site"),
            file("/srv/my site/content/post.markdown", "---\nlayout: post\n---\nText"),
        ],
    };
    let cs = find_markdown_files(&s("/srv/my site"), &t, &config()).unwrap();
    assert_eq!(cs[0].1.path, "/srv/my site/dist/content/post/index.html");
    assert_eq!(cs[0].1.url, "/content/post/");
}
