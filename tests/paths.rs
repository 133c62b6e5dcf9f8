use mandy::{
    extract_stem, get_path_from_buf, insert_entity_into_buf_at_item, make_web_friendly,
    produce_complex_path, split_buf_at_item, split_path_buf, string_vec_to_path_buf, Direction,
};

fn s(x: &str) -> String {
    x.to_string()
}

fn segs(v: &[&str]) -> Vec<String> {
    v.iter().map(|x| x.to_string()).collect()
}

#[test]
fn split_absolute_path_keeps_root_marker() {
    assert_eq!(split_path_buf(&s("/home/site/content")), segs(&["/", "home", "site", "content"]));
}

#[test]
fn split_drops_empty_and_dot_pieces() {
    assert_eq!(
        split_path_buf(&s("site//content/./post.markdown/")),
        segs(&["site", "content", "post.markdown"])
    );
    assert_eq!(split_path_buf(&s("")), Vec::<String>::new());
}

#[test]
fn join_puts_separators_back() {
    assert_eq!(string_vec_to_path_buf(&segs(&["site", "dist", "index.html"])), "site/dist/index.html");
    assert_eq!(string_vec_to_path_buf(&segs(&["/", "a", "b"])), "/a/b");
    assert_eq!(string_vec_to_path_buf(&segs(&["/"])), "/");
    assert_eq!(string_vec_to_path_buf(&Vec::new()), "");
}

#[test]
fn split_then_join_is_the_same_path() {
    for p in ["a/b/c", "/x/y", "a//b/", "./site/content", "/"] {
        let once = split_path_buf(&s(p));
        let joined = string_vec_to_path_buf(&once);
        assert_eq!(split_path_buf(&joined), once);
    }
    assert_eq!(string_vec_to_path_buf(&split_path_buf(&s("a/b/c"))), "a/b/c");
    assert_eq!(string_vec_to_path_buf(&split_path_buf(&s("a//b/"))), "a/b");
}

#[test]
fn insert_after_project_root() {
    let r = insert_entity_into_buf_at_item(
        &s("site/content/post.markdown"),
        &s("dist"),
        &s("site"),
        &Direction::After,
    );
    assert_eq!(r.unwrap(), "site/dist/content/post.markdown");
}

#[test]
fn insert_before_anchor() {
    let r = insert_entity_into_buf_at_item(&s("a/b/c"), &s("x"), &s("b"), &Direction::Before);
    assert_eq!(r.unwrap(), "a/x/b/c");
    let first = insert_entity_into_buf_at_item(&s("a/b/c"), &s("x"), &s("a"), &Direction::Before);
    assert_eq!(first.unwrap(), "x/a/b/c");
}

#[test]
fn insert_uses_first_occurrence() {
    let r = insert_entity_into_buf_at_item(&s("a/b/a"), &s("x"), &s("a"), &Direction::After);
    assert_eq!(r.unwrap(), "a/x/b/a");
}

#[test]
fn insert_then_remove_round_trip_on_segments() {
    let p = s("site/content/post.markdown");
    let inserted = insert_entity_into_buf_at_item(&p, &s("dist"), &s("content"), &Direction::Before).unwrap();
    let mut segments = split_path_buf(&inserted);
    let at = segments.iter().position(|x| x == "dist").unwrap();
    segments.remove(at);
    assert_eq!(segments, split_path_buf(&p));
}

#[test]
fn insert_without_anchor_fails() {
    let r = insert_entity_into_buf_at_item(&s("a/b"), &s("x"), &s("z"), &Direction::After);
    assert_eq!(
        r.unwrap_err().to_string(),
        "The item \"z\" does not occur in the path \"a/b\"."
    );
}

#[test]
fn truncate_keeps_anchor_and_after() {
    assert_eq!(split_buf_at_item(&s("site/dist/content"), &s("dist"), &false).unwrap(), "dist/content");
    assert_eq!(split_buf_at_item(&s("site/dist/content"), &s("site"), &false).unwrap(), "site/dist/content");
}

#[test]
fn truncate_including_keeps_what_follows() {
    let r = split_buf_at_item(&s("site/dist/content/post/index.html"), &s("dist"), &true);
    assert_eq!(r.unwrap(), "content/post/index.html");
}

#[test]
fn truncate_including_first_segment_fails() {
    let r = split_buf_at_item(&s("dist/a"), &s("dist"), &true);
    assert_eq!(
        r.unwrap_err().to_string(),
        "The path \"dist/a\" has no segment before \"dist\" to remove."
    );
}

#[test]
fn truncate_without_anchor_leaves_nothing() {
    assert_eq!(split_buf_at_item(&s("a/b/c"), &s("z"), &true).unwrap(), "");
    assert_eq!(split_buf_at_item(&s("a/b/c"), &s("z"), &false).unwrap(), "");
}

#[test]
fn web_path_has_one_leading_slash() {
    assert_eq!(make_web_friendly(&s("content/post/index.html")), "/content/post/index.html");
    assert_eq!(make_web_friendly(&s("")), "/");
}

#[test]
fn stem_of_file_names() {
    assert_eq!(extract_stem(&s("site/content/post.markdown")).unwrap(), "post");
    assert_eq!(extract_stem(&s("a/archive.tar.gz")).unwrap(), "archive.tar");
    assert_eq!(extract_stem(&s(".hidden")).unwrap(), ".hidden");
    assert_eq!(extract_stem(&s("notes.")).unwrap(), "notes");
    assert_eq!(extract_stem(&s("README")).unwrap(), "README");
}

#[test]
fn stem_without_file_name_fails() {
    assert_eq!(
        extract_stem(&s("a/..")).unwrap_err().to_string(),
        "Could not extract filename from path \"a/..\"!"
    );
    assert!(extract_stem(&s("/")).is_err());
    assert!(extract_stem(&s("")).is_err());
}

#[test]
fn parent_and_stem() {
    let info = get_path_from_buf(&s("site/content/post.markdown")).unwrap();
    assert_eq!(info.path, "site/content");
    assert_eq!(info.file, "post");
    let top = get_path_from_buf(&s("post.md")).unwrap();
    assert_eq!(top.path, "");
    assert_eq!(top.file, "post");
    let abs = get_path_from_buf(&s("/post.md")).unwrap();
    assert_eq!(abs.path, "/");
}

#[test]
fn parent_of_root_fails() {
    assert_eq!(
        get_path_from_buf(&s("/")).unwrap_err().to_string(),
        "Could not retrieve parent directory of path \"/\"."
    );
    assert_eq!(
        get_path_from_buf(&s("a/..")).unwrap_err().to_string(),
        "Could not extract filename from path \"a/..\"!"
    );
}

#[test]
fn routing_of_a_post() {
    let r = produce_complex_path(&s("site/dist/content/post.markdown"), &s("dist")).unwrap();
    assert_eq!(r.on_disk_html_url, "site/dist/content/post/index.html");
    assert_eq!(r.web_link, "/content/post/");
}

#[test]
fn routing_of_an_index() {
    let r = produce_complex_path(&s("site/dist/content/index.markdown"), &s("dist")).unwrap();
    assert_eq!(r.on_disk_html_url, "site/dist/content/index.html");
    assert_eq!(r.web_link, "/content/");
}

#[test]
fn routing_of_the_home_page() {
    let r = produce_complex_path(&s("site/dist/index.markdown"), &s("dist")).unwrap();
    assert_eq!(r.on_disk_html_url, "site/dist/index.html");
    assert_eq!(r.web_link, "/");
}

#[test]
fn routing_from_a_source_path() {
    let out = insert_entity_into_buf_at_item(
        &s("site/content/post.markdown"),
        &s("dist"),
        &s("site"),
        &Direction::After,
    )
    .unwrap();
    let r = produce_complex_path(&out, &s("dist")).unwrap();
    assert_eq!(r.on_disk_html_url, "site/dist/content/post/index.html");
    assert_eq!(r.web_link, "/content/post/");
}

#[test]
fn routing_with_output_dir_first_fails() {
    let r = produce_complex_path(&s("dist/content/post.markdown"), &s("dist"));
    assert_eq!(
        r.unwrap_err().to_string(),
        "The path \"dist/content/post/index.html\" has no segment before \"dist\" to remove."
    );
}

#[test]
fn routing_without_file_name_fails() {
    let r = produce_complex_path(&s("site/.."), &s("dist"));
    assert_eq!(r.unwrap_err().to_string(), "Could not extract filename from path \"site/..\"!");
}

#[test]
fn split_keeps_leading_current_directory() {
    assert_eq!(split_path_buf(&s("./content/post.markdown")), segs(&[".", "content", "post.markdown"]));
    assert_eq!(split_path_buf(&s(".")), segs(&["."]));
    assert_eq!(split_path_buf(&s(".hidden/x")), segs(&[".hidden", "x"]));
    assert_eq!(string_vec_to_path_buf(&segs(&[".", "dist"])), "./dist");
}

#[test]
fn routing_in_the_current_directory() {
    let out = insert_entity_into_buf_at_item(
        &s("./content/post.markdown"),
        &s("dist"),
        &s("."),
        &Direction::After,
    )
    .unwrap();
    assert_eq!(out, "./dist/content/post.markdown");
    let r = produce_complex_path(&out, &s("dist")).unwrap();
    assert_eq!(r.on_disk_html_url, "./dist/content/post/index.html");
    assert_eq!(r.web_link, "/content/post/");
    let i = produce_complex_path(&s("./dist/content/index.markdown"), &s("dist")).unwrap();
    assert_eq!(i.on_disk_html_url, "./dist/content/index.html");
    assert_eq!(i.web_link, "/content/");
}

#[test]
fn current_directory_has_no_file_name() {
    assert_eq!(extract_stem(&s(".")).unwrap_err().to_string(), "Could not extract filename from path \".\"!");
}
