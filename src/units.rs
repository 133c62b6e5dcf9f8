//! The project model: configuration, content, layouts, data files, and the
//! snapshot of a project directory that the scanner reads.
use vstd::prelude::*;
use vstd::string::*;

verus! {

/// A flat record of string keys and values, in key order.
pub type Record = Vec<(String, String)>;

/// The two formats of configuration and data files.
#[derive(Clone, Copy, Debug, PartialEq, Eq, Structural)]
pub enum UserDataFileType {
    JSON,
    YAML,
}

/// The configuration options of a project.
#[derive(Clone, Debug)]
pub struct MandyConfig {
    pub tl_domain: String,
    pub seo: bool,
    pub title: String,
    pub dist_dir: String,
    pub description: String,
    pub prod_url: String,
    pub dev_url: String,
    pub copy_files: bool,
    pub has_loop_content: bool,
    pub copy_entities: Option<Vec<String>>,
    pub loop_content_dirs: Option<Vec<String>>,
    pub user_config: Record,
}

/// A project's configuration file.
#[derive(Clone, Debug)]
pub struct ConfigFile {
    pub path: String,
    pub file_type: UserDataFileType,
    pub contents: MandyConfig,
}

/// A parsed content file: its layout name, its metadata and its body as HTML.
#[derive(Clone, Debug)]
pub struct ContentStore {
    pub layout: String,
    pub params: Record,
    pub content: String,
}

/// A content item with its public link and the on-disk path of its page.
#[derive(Clone, Debug)]
pub struct MandyContent {
    pub layout: String,
    pub params: Record,
    pub content: String,
    pub url: String,
    pub path: String,
}

/// A layout template, named after its file stem.
#[derive(Clone, Debug)]
pub struct LayoutFile {
    pub name: String,
    pub path: String,
    pub contents: String,
}

/// A structured data file and its records.
#[derive(Clone, Debug)]
pub struct UserDataFile {
    pub path: String,
    pub file_name: String,
    pub file_type: UserDataFileType,
    pub contents: Vec<Record>,
}

/// Everything known of a project after one scan.
#[derive(Debug)]
pub struct SiteInfo {
    pub config: ConfigFile,
    pub content_files: Vec<(String, MandyContent)>,
    pub data_files: Option<Vec<(String, UserDataFile)>>,
    pub loop_content: Option<Vec<(String, Vec<MandyContent>)>>,
    pub layouts: Vec<LayoutFile>,
    pub sass_dir: Option<String>,
    pub partials: Vec<(String, String)>,
}

/// What a template sees when one page is rendered.
#[derive(Debug)]
pub struct SiteContext {
    pub site: MandyConfig,
    pub page: MandyContent,
    pub loop_content: Option<Vec<(String, Vec<MandyContent>)>>,
    pub data: Option<Vec<(String, Vec<Record>)>>,
    pub baseurl: String,
}

/// One file or directory below a project's root, with the text of a file
/// where it could be read as text.
#[derive(Clone, Debug)]
pub struct TreeEntry {
    pub path: String,
    pub is_dir: bool,
    pub text: Option<String>,
}

/// The files and directories below a project's root, in the order of a walk.
#[derive(Clone, Debug)]
pub struct ProjectTree {
    pub entries: Vec<TreeEntry>,
}

/// One URL of a sitemap.
#[derive(Debug)]
pub struct SiteMapUrl {
    pub url: String,
}

/// The opening of a sitemap document.
pub open spec fn sitemap_head() -> Seq<char> {
    "<?xml version=\"1.0\" encoding=\"UTF-8\"?>\n<urlset xmlns=\"http://www.sitemaps.org/schemas/sitemap/0.9\">\n"@
}

/// The XML element of one sitemap URL.
pub open spec fn url_element(url: Seq<char>) -> Seq<char> {
    "<url><loc>"@ + url + "</loc></url>"@
}

/// The items of `s` separated by line breaks.
pub open spec fn lines(s: Seq<Seq<char>>) -> Seq<char>
    decreases s.len(),
{
    if s.len() == 0 {
        Seq::empty()
    } else if s.len() == 1 {
        s[0]
    } else {
        lines(s.drop_last()) + seq!['\n'] + s.last()
    }
}

/// The elements of the sitemap URLs `urls`.
pub open spec fn url_elements(urls: Seq<SiteMapUrl>) -> Seq<Seq<char>> {
    urls.map_values(|u: SiteMapUrl| url_element(u.url@))
}

impl SiteMapUrl {
    /// The XML element of this URL.
    pub fn to_string(&self) -> (r: String)
        ensures
            r@ == url_element(self.url@),
    {
        let mut s = String::from_str("<url><loc>");
        s.append(self.url.as_str());
        s.append("</loc></url>");
        s
    }
}

/// The URLs of a compiled site.
#[derive(Debug)]
pub struct SiteMap {
    pub urls: Vec<SiteMapUrl>,
}

impl SiteMap {
    /// The sitemap document: one element per URL, one per line.
    pub fn to_string(&self) -> (r: String)
        ensures
            r@ == sitemap_head() + lines(url_elements(self.urls@)) + "</urlset>"@,
    {
        let mut body = String::new();
        let mut i: usize = 0;
        proof {
            reveal_strlit("\n");
        }
        assert(url_elements(self.urls@).subrange(0, 0) =~= Seq::<Seq<char>>::empty());
        while i < self.urls.len()
            invariant
                i <= self.urls@.len(),
                "\n"@ == seq!['\n'],
                body@ == lines(url_elements(self.urls@).subrange(0, i as int)),
            decreases self.urls@.len() - i,
        {
            let ghost next = url_elements(self.urls@).subrange(0, i + 1);
            assert(next.drop_last() =~= url_elements(self.urls@).subrange(0, i as int));
            let item = self.urls[i].to_string();
            if i > 0 {
                body.append("\n");
                body.append(item.as_str());
                assert(body@ =~= lines(next.drop_last()) + seq!['\n'] + next.last());
            } else {
                body.append(item.as_str());
                assert(body@ =~= next[0]);
            }
            i = i + 1;
        }
        assert(url_elements(self.urls@).subrange(0, self.urls@.len() as int) =~= url_elements(
            self.urls@,
        ));
        let mut s = String::from_str(
            "<?xml version=\"1.0\" encoding=\"UTF-8\"?>\n<urlset xmlns=\"http://www.sitemaps.org/schemas/sitemap/0.9\">\n",
        );
        s.append(body.as_str());
        s.append("</urlset>");
        s
    }
}

} // verus!
