//! Mandy: a static-site generator whose project-assembly and path logic is
//! verified with Verus.
pub mod compile;
pub mod content;
pub mod err;
pub mod gather;
pub mod laws;
pub mod paths;
pub mod text;
pub mod units;

pub use compile::{
    build_context, build_sitemap, clean_data, clean_project, compile_loop_content_files, copy_files,
    copy_sources, ensure_outputs_absent, get_layout_by_name, loop_content_outputs,
    output_dir_path, plan_pages, select_base_url, seo, stylesheet_paths, CopyJob, EntryKind,
    PageJob, SeoFiles,
};
pub use content::{
    assemble_content, parse_document, parse_json_data, parse_yml_data, split_front_matter,
};
pub use err::MandyErr;
pub use gather::{
    check_config, find_files_with_ending, find_layout_files, find_loop_content_files, find_markdown_files,
    find_sass_files, gather_project_data, read_config, read_data_files, retrieve_partials,
    ConfigSource,
};
pub use paths::{
    extract_stem, get_path_from_buf, insert_entity_into_buf_at_item, make_web_friendly,
    produce_complex_path, route_content, split_buf_at_item, split_path_buf, string_vec_to_path_buf,
    ComplexPath, Direction, PathInfo,
};
pub use units::{
    ConfigFile, ContentStore, LayoutFile, MandyConfig, MandyContent, ProjectTree, Record,
    SiteContext, SiteInfo, SiteMap, SiteMapUrl, TreeEntry, UserDataFile, UserDataFileType,
};
