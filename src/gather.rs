//! Finds and classifies the files of a project in a snapshot of its directory.
use vstd::prelude::*;
use vstd::string::*;
use crate::compile::{no_assets, no_assets_msg};
use crate::content::{
    document_of, json_records_of, pairs_view, parse_document, parse_json_data, parse_yml_data,
    records_view, yaml_records_of,
};
use crate::err::{framed_err, MandyErr};
use crate::paths::{
    first_index, lemma_first_index, lemma_first_index_at,
    extension_of, route_content, route_of, extension_string, extract_stem, file_name_of, join_segments,
    no_file_name_msg, seg_views, segments_of, split_path_buf, stem_of, string_vec_to_path_buf,
};
use crate::units::{
    ConfigFile, LayoutFile, SiteInfo, MandyConfig, MandyContent, ProjectTree, TreeEntry, UserDataFile, UserDataFileType,
};

verus! {

/// The segments of the entry `name` right inside the directory `dir`.
pub open spec fn child_segments(dir: Seq<char>, name: Seq<char>) -> Seq<Seq<char>> {
    segments_of(dir).push(name)
}

/// The path of the entry `name` right inside the directory `dir`.
pub open spec fn child_path(dir: Seq<char>, name: Seq<char>) -> Seq<char> {
    join_segments(child_segments(dir, name))
}

/// The index of the first entry of `es` whose path has the segments `segs`,
/// or the length where there is none.
pub open spec fn entry_index(es: Seq<TreeEntry>, segs: Seq<Seq<char>>) -> int
    decreases es.len(),
{
    if es.len() == 0 {
        0
    } else if segments_of(es[0].path@) == segs {
        0
    } else {
        1 + entry_index(es.drop_first(), segs)
    }
}

/// Whether some entry of `es` has a path with the segments `segs`.
pub open spec fn present(es: Seq<TreeEntry>, segs: Seq<Seq<char>>) -> bool {
    entry_index(es, segs) < es.len()
}

/// Whether `e` is a file below the directory with segments `dir` whose
/// extension is `ext`.
pub open spec fn is_match(e: TreeEntry, dir: Seq<Seq<char>>, ext: Seq<char>) -> bool {
    let s = segments_of(e.path@);
    &&& !e.is_dir
    &&& dir.len() < s.len()
    &&& s.subrange(0, dir.len() as int) == dir
    &&& extension_of(s.last()) == Some(ext)
}

/// The indices, in order, of the entries of `es` that are files below `dir`
/// with extension `ext`.
pub open spec fn matching(es: Seq<TreeEntry>, dir: Seq<Seq<char>>, ext: Seq<char>) -> Seq<int>
    decreases es.len(),
{
    if es.len() == 0 {
        Seq::empty()
    } else {
        let r = matching(es.drop_last(), dir, ext);
        if is_match(es.last(), dir, ext) {
            r.push(es.len() - 1)
        } else {
            r
        }
    }
}

/// The integers of a sequence of indices.
pub open spec fn idx_view(v: Seq<usize>) -> Seq<int> {
    v.map_values(|k: usize| k as int)
}

proof fn lemma_matching_bounds(es: Seq<TreeEntry>, dir: Seq<Seq<char>>, ext: Seq<char>)
    ensures
        forall|k: int|
            0 <= k < matching(es, dir, ext).len() ==> 0 <= #[trigger] matching(es, dir, ext)[k]
                < es.len(),
    decreases es.len(),
{
    if es.len() > 0 {
        lemma_matching_bounds(es.drop_last(), dir, ext);
        let r = matching(es.drop_last(), dir, ext);
        let m = matching(es, dir, ext);
        assert forall|k: int| 0 <= k < m.len() implies 0 <= #[trigger] m[k] < es.len() by {
            if k < r.len() {
                assert(m[k] == r[k]);
            }
        }
    }
}

/// Whether two sequences of strings have the same views.
fn same_items(a: &Vec<String>, b: &Vec<String>) -> (r: bool)
    ensures
        r == (seg_views(a@) == seg_views(b@)),
{
    if a.len() != b.len() {
        assert(seg_views(a@).len() != seg_views(b@).len());
        return false;
    }
    let mut i: usize = 0;
    while i < a.len()
        invariant
            a@.len() == b@.len(),
            i <= a@.len(),
            forall|j: int| 0 <= j < i ==> #[trigger] a@[j]@ == b@[j]@,
        decreases a@.len() - i,
    {
        if a[i] != b[i] {
            assert(seg_views(a@)[i as int] != seg_views(b@)[i as int]);
            return false;
        }
        i = i + 1;
    }
    assert(seg_views(a@) =~= seg_views(b@));
    true
}

/// Whether `p` is a proper prefix of `a`, by views.
pub(crate) fn proper_prefix(a: &Vec<String>, p: &Vec<String>) -> (r: bool)
    ensures
        r == (p@.len() < a@.len() && seg_views(a@).subrange(0, p@.len() as int) == seg_views(
            p@,
        )),
{
    if p.len() >= a.len() {
        return false;
    }
    let mut i: usize = 0;
    while i < p.len()
        invariant
            p@.len() < a@.len(),
            i <= p@.len(),
            forall|j: int| 0 <= j < i ==> #[trigger] a@[j]@ == p@[j]@,
        decreases p@.len() - i,
    {
        if a[i] != p[i] {
            assert(seg_views(a@).subrange(0, p@.len() as int)[i as int] != seg_views(p@)[i as int]);
            return false;
        }
        i = i + 1;
    }
    assert(seg_views(a@).subrange(0, p@.len() as int) =~= seg_views(p@));
    true
}

/// The segments of the entry `name` right inside `dir`.
pub(crate) fn child_items(dir: &String, name: &str) -> (r: Vec<String>)
    ensures
        seg_views(r@) == child_segments(dir@, name@),
{
    let mut items = split_path_buf(dir);
    let ghost before = items@;
    items.push(String::from_str(name));
    assert(seg_views(items@) =~= seg_views(before).push(name@));
    items
}

proof fn lemma_entry_index_at(es: Seq<TreeEntry>, segs: Seq<Seq<char>>, i: int)
    requires
        0 <= i <= es.len(),
        forall|j: int| 0 <= j < i ==> segments_of(#[trigger] es[j].path@) != segs,
        i == es.len() || segments_of(es[i].path@) == segs,
    ensures
        entry_index(es, segs) == i,
    decreases i,
{
    if i > 0 {
        let t = es.drop_first();
        assert(segments_of(es[0].path@) != segs);
        assert forall|j: int| 0 <= j < i - 1 implies segments_of(#[trigger] t[j].path@) != segs by {
            assert(t[j] == es[j + 1]);
        }
        if i < es.len() {
            assert(t[i - 1] == es[i]);
        }
        lemma_entry_index_at(t, segs, i - 1);
    }
}

/// The index of the first entry whose path has the segments `target`.
fn find_entry(tree: &ProjectTree, target: &Vec<String>) -> (r: usize)
    ensures
        r == entry_index(tree.entries@, seg_views(target@)),
        r <= tree.entries@.len(),
{
    let ghost es = tree.entries@;
    let mut i: usize = 0;
    while i < tree.entries.len()
        invariant
            es == tree.entries@,
            i <= es.len(),
            forall|j: int| 0 <= j < i ==> segments_of(#[trigger] es[j].path@) != seg_views(target@),
        decreases es.len() - i,
    {
        let items = split_path_buf(&tree.entries[i].path);
        if same_items(&items, target) {
            proof {
                lemma_entry_index_at(es, seg_views(target@), i as int);
            }
            return i;
        }
        i = i + 1;
    }
    proof {
        lemma_entry_index_at(es, seg_views(target@), i as int);
    }
    i
}

/// The indices of the files below the directory with segments `dir_items`
/// whose extension is `ext`.
fn files_below(tree: &ProjectTree, dir_items: &Vec<String>, ext: &str) -> (r: Vec<usize>)
    ensures
        idx_view(r@) == matching(tree.entries@, seg_views(dir_items@), ext@),
        forall|k: int| 0 <= k < r@.len() ==> #[trigger] r@[k] < tree.entries@.len(),
{
    let ghost es = tree.entries@;
    let ghost d = seg_views(dir_items@);
    let mut out: Vec<usize> = Vec::new();
    let mut i: usize = 0;
    assert(es.subrange(0, 0) =~= Seq::<TreeEntry>::empty());
    assert(idx_view(out@) =~= Seq::<int>::empty());
    while i < tree.entries.len()
        invariant
            es == tree.entries@,
            seg_views(dir_items@) == d,
            i <= es.len(),
            idx_view(out@) == matching(es.subrange(0, i as int), d, ext@),
            forall|k: int| 0 <= k < out@.len() ==> #[trigger] out@[k] < i,
        decreases es.len() - i,
    {
        let ghost pre = es.subrange(0, i + 1);
        assert(pre.drop_last() =~= es.subrange(0, i as int));
        assert(pre.last() == es[i as int]);
        let e = &tree.entries[i];
        let items = split_path_buf(&e.path);
        let mut hit = false;
        if !e.is_dir && proper_prefix(&items, dir_items) {
            let n = items.len();
            match extension_string(&items[n - 1]) {
                Some(x) => {
                    let want = String::from_str(ext);
                    hit = x == want;
                },
                None => {},
            }
        }
        assert(hit == is_match(es[i as int], d, ext@));
        if hit {
            let ghost before = out@;
            out.push(i);
            assert(idx_view(out@) =~= idx_view(before).push(i as int));
        }
        i = i + 1;
    }
    assert(es.subrange(0, es.len() as int) =~= es);
    out
}

/// Finds the files below `dir` whose extension is `ext`, as indices into the
/// snapshot's entries in walk order; none where there is no such file.
pub fn find_files_with_ending(tree: &ProjectTree, dir: &String, ext: &str) -> (r: Option<Vec<usize>>)
    ensures
        ({
            let m = matching(tree.entries@, segments_of(dir@), ext@);
            match r {
                Some(v) => m.len() > 0 && idx_view(v@) == m,
                None => m.len() == 0,
            }
        }),
{
    let dir_items = split_path_buf(dir);
    let out = files_below(tree, &dir_items, ext);
    if out.len() == 0 {
        None
    } else {
        Some(out)
    }
}

/// The message of a stylesheet directory without its entry file.
pub open spec fn no_sass_entry_msg(path: Seq<char>) -> Seq<char> {
    "The SASS directory at the path \""@ + path
        + "\" exists but does not contain an \"index.scss\" file."@
}

/// What finding the stylesheet entry of the project at `dir` gives.
pub open spec fn sass_of(es: Seq<TreeEntry>, dir: Seq<char>) -> Result<Option<Seq<char>>, Seq<char>> {
    let sass = child_segments(dir, "sass"@);
    let entry = sass.push("index.scss"@);
    if present(es, sass) && present(es, entry) {
        Ok(Some(join_segments(entry)))
    } else if present(es, sass) {
        Err(no_sass_entry_msg(join_segments(sass)))
    } else {
        Ok(None)
    }
}

/// Finds the stylesheet entry `sass/index.scss` of the project at `dir`. A
/// `sass` directory without it is an error; no `sass` directory gives none.
pub fn find_sass_files(dir: &String, tree: &ProjectTree) -> (r: Result<Option<String>, MandyErr>)
    ensures
        match sass_of(tree.entries@, dir@) {
            Ok(Some(p)) => r is Ok && r->Ok_0 is Some && r->Ok_0->Some_0@ == p,
            Ok(None) => r is Ok && r->Ok_0 is None,
            Err(m) => r is Err && r->Err_0.details@ == m,
        },
{
    let sass = child_items(dir, "sass");
    let mut entry = child_items(dir, "sass");
    let ghost before = entry@;
    entry.push(String::from_str("index.scss"));
    assert(seg_views(entry@) =~= seg_views(before).push("index.scss"@));
    let has_dir = find_entry(tree, &sass) < tree.entries.len();
    let has_entry = find_entry(tree, &entry) < tree.entries.len();
    if has_dir && has_entry {
        Ok(Some(string_vec_to_path_buf(&entry)))
    } else if has_dir {
        let p = string_vec_to_path_buf(&sass);
        Err(
            framed_err(
                "The SASS directory at the path \"",
                p.as_str(),
                "\" exists but does not contain an \"index.scss\" file.",
            ),
        )
    } else {
        Ok(None)
    }
}

/// The message of an empty output-directory name.
pub open spec fn empty_dist_msg() -> Seq<char> {
    "The \"dist_dir\" option cannot be empty."@
}

/// The message of a loop-content flag with an empty directory list.
pub open spec fn empty_loop_dirs_msg() -> Seq<char> {
    "The \"loop_content_dirs\" option cannot be empty."@
}

/// The first way in which a configuration breaks its invariants: the output
/// directory has a name; a set asset-copy flag comes with a non-empty list
/// of assets; a set loop-content flag comes with a non-empty list of
/// directories.
pub open spec fn config_fault(c: MandyConfig) -> Option<Seq<char>> {
    if c.dist_dir@.len() == 0 {
        Some(empty_dist_msg())
    } else if c.copy_files && no_assets(c) {
        Some(no_assets_msg())
    } else if c.has_loop_content && c.loop_content_dirs is None {
        Some(no_loop_dirs_msg())
    } else if c.has_loop_content && c.loop_content_dirs->Some_0@.len() == 0 {
        Some(empty_loop_dirs_msg())
    } else {
        None
    }
}

/// Checks the invariants of a loaded configuration.
pub fn check_config(config: &MandyConfig) -> (r: Result<(), MandyErr>)
    ensures
        match config_fault(*config) {
            None => r is Ok,
            Some(m) => r is Err && r->Err_0.details@ == m,
        },
{
    if config.dist_dir.as_str().unicode_len() == 0 {
        return Err(MandyErr::new("The \"dist_dir\" option cannot be empty."));
    }
    if config.copy_files {
        let empty = match &config.copy_entities {
            Some(v) => v.len() == 0,
            None => true,
        };
        if empty {
            return Err(
                MandyErr::new(
                    "The \"copy_files\" option was set to \"true\" but no entities were supplied.",
                ),
            );
        }
    }
    if config.has_loop_content {
        match &config.loop_content_dirs {
            None => {
                return Err(
                    MandyErr::new(
                        "The \"has_loop_content\" flag was set to \"true\" but directories containing such content were not specified.",
                    ),
                );
            },
            Some(v) => {
                if v.len() == 0 {
                    return Err(MandyErr::new("The \"loop_content_dirs\" option cannot be empty."));
                }
            },
        }
    }
    Ok(())
}

/// A configuration file chosen for loading: its path, format and text.
#[derive(Debug)]
pub struct ConfigSource {
    pub path: String,
    pub file_type: UserDataFileType,
    pub text: String,
}

/// The message of a project without a configuration file.
pub open spec fn no_config_msg(dir: Seq<char>) -> Seq<char> {
    "No config file found in the directory \""@ + dir + "\"."@
}

/// The message of a file that cannot be read as text.
pub open spec fn unreadable_msg(path: Seq<char>) -> Seq<char> {
    "The file \""@ + path + "\" could not be read as text."@
}

/// What choosing the configuration file of the project at `dir` gives: its
/// path, format and text. `config.json` is chosen over `config.yml`.
pub open spec fn config_source_of(es: Seq<TreeEntry>, dir: Seq<char>) -> Result<
    (Seq<char>, UserDataFileType, Seq<char>),
    Seq<char>,
> {
    let json = child_segments(dir, "config.json"@);
    let yml = child_segments(dir, "config.yml"@);
    let (segs, ty) = if present(es, json) {
        (json, UserDataFileType::JSON)
    } else {
        (yml, UserDataFileType::YAML)
    };
    if !present(es, json) && !present(es, yml) {
        Err(no_config_msg(dir))
    } else {
        match es[entry_index(es, segs)].text {
            Some(t) => Ok((join_segments(segs), ty, t@)),
            None => Err(unreadable_msg(join_segments(segs))),
        }
    }
}

/// Chooses the configuration file of the project at `dir`: `config.json`
/// where it exists, else `config.yml`.
pub fn read_config(dir: &String, tree: &ProjectTree) -> (r: Result<ConfigSource, MandyErr>)
    ensures
        match config_source_of(tree.entries@, dir@) {
            Ok((p, ty, t)) => r is Ok && r->Ok_0.path@ == p && r->Ok_0.file_type == ty
                && r->Ok_0.text@ == t,
            Err(m) => r is Err && r->Err_0.details@ == m,
        },
{
    let json = child_items(dir, "config.json");
    let yml = child_items(dir, "config.yml");
    let n = tree.entries.len();
    let ij = find_entry(tree, &json);
    let (items, ty, at) = if ij < n {
        (json, UserDataFileType::JSON, ij)
    } else {
        let iy = find_entry(tree, &yml);
        if iy >= n {
            return Err(framed_err("No config file found in the directory \"", dir.as_str(), "\"."));
        }
        (yml, UserDataFileType::YAML, iy)
    };
    let path = string_vec_to_path_buf(&items);
    match &tree.entries[at].text {
        Some(t) => Ok(ConfigSource { path, file_type: ty, text: t.clone() }),
        None => Err(
            framed_err("The file \"", path.as_str(), "\" could not be read as text."),
        ),
    }
}

/// The results of `f` on `0..n`, in order, or the first failure among them.
pub open spec fn all_ok<V>(n: nat, f: spec_fn(int) -> Result<V, Seq<char>>) -> Result<
    Seq<V>,
    Seq<char>,
>
    decreases n,
{
    if n == 0 {
        Ok(Seq::empty())
    } else {
        match all_ok((n - 1) as nat, f) {
            Err(e) => Err(e),
            Ok(vs) => match f(n - 1) {
                Err(e) => Err(e),
                Ok(v) => Ok(vs.push(v)),
            },
        }
    }
}

/// A failure among the first `k` results is the failure of all `n`.
pub proof fn lemma_all_ok_err<V>(k: nat, n: nat, f: spec_fn(int) -> Result<V, Seq<char>>)
    requires
        k <= n,
        all_ok(k, f) is Err,
    ensures
        all_ok(n, f) == all_ok(k, f),
    decreases n - k,
{
    if k < n {
        lemma_all_ok_err(k, (n - 1) as nat, f);
    }
}

/// The file stem and the text of a file entry.
pub open spec fn source_item(e: TreeEntry) -> Result<(Seq<char>, Seq<char>), Seq<char>> {
    match file_name_of(segments_of(e.path@)) {
        None => Err(no_file_name_msg(e.path@)),
        Some(n) => match e.text {
            None => Err(unreadable_msg(e.path@)),
            Some(t) => Ok((stem_of(n), t@)),
        },
    }
}

/// Reads the file stem and the text of a file entry.
fn read_source(e: &TreeEntry) -> (r: Result<(String, String), MandyErr>)
    ensures
        match source_item(*e) {
            Ok((s, t)) => r is Ok && r->Ok_0.0@ == s && r->Ok_0.1@ == t,
            Err(m) => r is Err && r->Err_0.details@ == m,
        },
{
    let stem = extract_stem(&e.path)?;
    match &e.text {
        Some(t) => Ok((stem, t.clone())),
        None => Err(framed_err("The file \"", e.path.as_str(), "\" could not be read as text.")),
    }
}

/// The message of a project without a layouts directory.
pub open spec fn no_layouts_dir_msg(path: Seq<char>) -> Seq<char> {
    "The directory for layouts \""@ + path + "\" does not exist."@
}

/// The message of an empty layouts directory.
pub open spec fn no_layout_files_msg(path: Seq<char>) -> Seq<char> {
    "No layout files found at the following path: \""@ + path + "\"!"@
}

/// A layout as plain values: name, path, template source.
pub open spec fn layout_view(l: LayoutFile) -> (Seq<char>, Seq<char>, Seq<char>) {
    (l.name@, l.path@, l.contents@)
}

/// The layout read from the file entry `e`.
pub open spec fn layout_item(e: TreeEntry) -> Result<(Seq<char>, Seq<char>, Seq<char>), Seq<char>> {
    match source_item(e) {
        Err(m) => Err(m),
        Ok((stem, text)) => Ok((stem, e.path@, text)),
    }
}

/// What finding the layouts of the project at `dir` gives: every template
/// file below its `layouts` directory, in walk order.
pub open spec fn layouts_of(es: Seq<TreeEntry>, dir: Seq<char>) -> Result<
    Seq<(Seq<char>, Seq<char>, Seq<char>)>,
    Seq<char>,
> {
    let ld = child_segments(dir, "layouts"@);
    let m = matching(es, ld, "liquid"@);
    if !present(es, ld) {
        Err(no_layouts_dir_msg(join_segments(ld)))
    } else if m.len() == 0 {
        Err(no_layout_files_msg(join_segments(ld)))
    } else {
        all_ok(m.len(), layout_at(es, m))
    }
}

/// The layout read from the `k`-th of the entries `m` of `es`.
pub open spec fn layout_at(es: Seq<TreeEntry>, m: Seq<int>) -> spec_fn(int) -> Result<
    (Seq<char>, Seq<char>, Seq<char>),
    Seq<char>,
> {
    |k: int| layout_item(es[m[k]])
}

/// Finds and reads the layouts of the project at `dir`.
pub fn find_layout_files(dir: &String, tree: &ProjectTree) -> (r: Result<Vec<LayoutFile>, MandyErr>)
    ensures
        match layouts_of(tree.entries@, dir@) {
            Ok(v) => r is Ok && r->Ok_0@.map_values(|l: LayoutFile| layout_view(l)) == v,
            Err(m) => r is Err && r->Err_0.details@ == m,
        },
{
    let ghost es = tree.entries@;
    let ld = child_items(dir, "layouts");
    let path = string_vec_to_path_buf(&ld);
    if find_entry(tree, &ld) >= tree.entries.len() {
        return Err(framed_err("The directory for layouts \"", path.as_str(), "\" does not exist."));
    }
    let m = files_below(tree, &ld, "liquid");
    if m.len() == 0 {
        return Err(
            framed_err("No layout files found at the following path: \"", path.as_str(), "\"!"),
        );
    }
    let ghost ms = matching(es, child_segments(dir@, "layouts"@), "liquid"@);
    let ghost f = layout_at(es, ms);
    let mut out: Vec<LayoutFile> = Vec::new();
    let mut k: usize = 0;
    assert(out@.map_values(|l: LayoutFile| layout_view(l)) =~= Seq::empty());
    while k < m.len()
        invariant
            es == tree.entries@,
            ms == idx_view(m@),
            f == layout_at(es, ms),
            ms == matching(es, child_segments(dir@, "layouts"@), "liquid"@),
            present(es, child_segments(dir@, "layouts"@)),
            m@.len() > 0,
            forall|j: int| 0 <= j < m@.len() ==> #[trigger] m@[j] < es.len(),
            k <= m@.len(),
            all_ok(k as nat, f) == Ok::<_, Seq<char>>(out@.map_values(|l: LayoutFile| layout_view(l))),
        decreases m@.len() - k,
    {
        let e = &tree.entries[m[k]];
        assert(ms[k as int] == m@[k as int] as int);
        match read_source(e) {
            Err(err) => {
                proof {
                    lemma_all_ok_err((k + 1) as nat, m@.len() as nat, f);
                }
                return Err(err);
            },
            Ok((stem, text)) => {
                let ghost before = out@;
                out.push(LayoutFile { name: stem, path: e.path.clone(), contents: text });
                assert(out@.map_values(|l: LayoutFile| layout_view(l)) =~= before.map_values(
                    |l: LayoutFile| layout_view(l),
                ).push(f(k as int)->Ok_0));
            },
        }
        k = k + 1;
    }
    Ok(out)
}

/// The message of a project without a partials directory.
pub open spec fn no_partials_dir_msg() -> Seq<char> {
    "The directory for partial templates was not found."@
}

/// The message of an empty partials directory.
pub open spec fn no_partial_files_msg() -> Seq<char> {
    "The directory containing partial templates cannot be empty."@
}

/// What finding the partial templates of the project at `dir` gives: the
/// stem and source of every template file below its `partials` directory,
/// in walk order, as a mapping by stem.
pub open spec fn partials_of(es: Seq<TreeEntry>, dir: Seq<char>) -> Result<
    Seq<(Seq<char>, Seq<char>)>,
    Seq<char>,
> {
    let pd = child_segments(dir, "partials"@);
    let m = matching(es, pd, "liquid"@);
    if !present(es, pd) {
        Err(no_partials_dir_msg())
    } else if m.len() == 0 {
        Err(no_partial_files_msg())
    } else {
        match all_ok(m.len(), source_at(es, m)) {
            Err(e) => Err(e),
            Ok(v) => Ok(as_mapping(v)),
        }
    }
}

/// The stem and text of the `k`-th of the entries `m` of `es`.
pub open spec fn source_at(es: Seq<TreeEntry>, m: Seq<int>) -> spec_fn(int) -> Result<
    (Seq<char>, Seq<char>),
    Seq<char>,
> {
    |k: int| source_item(es[m[k]])
}

/// Finds and reads the partial templates of the project at `dir`, by stem:
/// each stem once, where it first occurs in walk order, with the source of
/// the last file of that stem.
pub fn retrieve_partials(dir: &String, tree: &ProjectTree) -> (r: Result<
    Vec<(String, String)>,
    MandyErr,
>)
    ensures
        match partials_of(tree.entries@, dir@) {
            Ok(v) => r is Ok && pairs_view(r->Ok_0@) == v && keys_unique(v),
            Err(m) => r is Err && r->Err_0.details@ == m,
        },
{
    let ghost es = tree.entries@;
    let pd = child_items(dir, "partials");
    if find_entry(tree, &pd) >= tree.entries.len() {
        return Err(MandyErr::new("The directory for partial templates was not found."));
    }
    let m = files_below(tree, &pd, "liquid");
    if m.len() == 0 {
        return Err(MandyErr::new("The directory containing partial templates cannot be empty."));
    }
    let ghost ms = matching(es, child_segments(dir@, "partials"@), "liquid"@);
    let ghost f = source_at(es, ms);
    let mut out: Vec<(String, String)> = Vec::new();
    let mut k: usize = 0;
    assert(pairs_view(out@) =~= Seq::empty());
    while k < m.len()
        invariant
            es == tree.entries@,
            ms == idx_view(m@),
            f == source_at(es, ms),
            ms == matching(es, child_segments(dir@, "partials"@), "liquid"@),
            present(es, child_segments(dir@, "partials"@)),
            m@.len() > 0,
            forall|j: int| 0 <= j < m@.len() ==> #[trigger] m@[j] < es.len(),
            k <= m@.len(),
            all_ok(k as nat, f) == Ok::<_, Seq<char>>(pairs_view(out@)),
        decreases m@.len() - k,
    {
        let e = &tree.entries[m[k]];
        assert(ms[k as int] == m@[k as int] as int);
        match read_source(e) {
            Err(err) => {
                proof {
                    lemma_all_ok_err((k + 1) as nat, m@.len() as nat, f);
                }
                return Err(err);
            },
            Ok(p) => {
                let ghost before = out@;
                out.push(p);
                assert(pairs_view(out@) =~= pairs_view(before).push(f(k as int)->Ok_0));
            },
        }
        k = k + 1;
    }
    let ghost raw = out@;
    let m = into_mapping(out);
    proof {
        lemma_keyed_mapping(raw, text_fn());
        lemma_pairs_keyed(raw);
        lemma_pairs_keyed(m@);
        lemma_mapping_unique(pairs_view(raw));
    }
    Ok(m)
}

/// A content item as plain values: layout, metadata, HTML body, public link,
/// on-disk path of its page.
pub type ContentView = (
    Seq<char>,
    Seq<(Seq<char>, Seq<char>)>,
    Seq<char>,
    Seq<char>,
    Seq<char>,
);

/// The plain values of a content item.
pub open spec fn content_view(c: MandyContent) -> ContentView {
    (c.layout@, pairs_view(c.params@), c.content@, c.url@, c.path@)
}

/// The plain values of content items keyed by their source paths.
pub open spec fn content_pairs_view(v: Seq<(String, MandyContent)>) -> Seq<(Seq<char>, ContentView)> {
    v.map_values(|p: (String, MandyContent)| (p.0@, content_view(p.1)))
}

/// The plain values of content items.
pub open spec fn contents_view(v: Seq<MandyContent>) -> Seq<ContentView> {
    v.map_values(|c: MandyContent| content_view(c))
}

/// The content item read from the file entry `e` of the project at `dir`,
/// keyed by its source path: parsed, and routed below the output directory
/// `dist`, which goes right after the project's own segments.
pub open spec fn content_item(e: TreeEntry, dir: Seq<char>, dist: Seq<char>) -> Result<
    (Seq<char>, ContentView),
    Seq<char>,
> {
    match e.text {
        None => Err(unreadable_msg(e.path@)),
        Some(t) => match document_of(t@) {
            Err(m) => Err(m),
            Ok((layout, params, html)) => match route_of(e.path@, dir, dist) {
                Err(m) => Err(m),
                Ok((disk, link)) => Ok((e.path@, (layout, params, html, link, disk))),
            },
        },
    }
}

/// The content item of the `k`-th of the entries `m` of `es`.
pub open spec fn content_at(es: Seq<TreeEntry>, m: Seq<int>, dir: Seq<char>, dist: Seq<char>) -> spec_fn(
    int,
) -> Result<(Seq<char>, ContentView), Seq<char>> {
    |k: int| content_item(es[m[k]], dir, dist)
}

/// Reads the content item of the file entry `e`.
fn make_content(e: &TreeEntry, dir: &String, dist: &String) -> (r: Result<
    (String, MandyContent),
    MandyErr,
>)
    ensures
        match content_item(*e, dir@, dist@) {
            Ok((p, c)) => r is Ok && r->Ok_0.0@ == p && content_view(r->Ok_0.1) == c,
            Err(m) => r is Err && r->Err_0.details@ == m,
        },
{
    let text = match &e.text {
        Some(t) => t,
        None => {
            return Err(framed_err("The file \"", e.path.as_str(), "\" could not be read as text."));
        },
    };
    let store = parse_document(text)?;
    let route = route_content(&e.path, dir, dist)?;
    let c = MandyContent {
        layout: store.layout,
        params: store.params,
        content: store.content,
        url: route.web_link,
        path: route.on_disk_html_url,
    };
    Ok((e.path.clone(), c))
}

/// Reads the content items of the entries `m`, in order.
fn contents_in(tree: &ProjectTree, m: &Vec<usize>, dir: &String, dist: &String) -> (r: Result<
    Vec<(String, MandyContent)>,
    MandyErr,
>)
    requires
        forall|j: int| 0 <= j < m@.len() ==> #[trigger] m@[j] < tree.entries@.len(),
    ensures
        match all_ok(m@.len() as nat, content_at(tree.entries@, idx_view(m@), dir@, dist@)) {
            Ok(v) => r is Ok && content_pairs_view(r->Ok_0@) == v,
            Err(e) => r is Err && r->Err_0.details@ == e,
        },
{
    let ghost es = tree.entries@;
    let ghost f = content_at(es, idx_view(m@), dir@, dist@);
    let mut out: Vec<(String, MandyContent)> = Vec::new();
    let mut k: usize = 0;
    assert(content_pairs_view(out@) =~= Seq::empty());
    while k < m.len()
        invariant
            es == tree.entries@,
            f == content_at(es, idx_view(m@), dir@, dist@),
            forall|j: int| 0 <= j < m@.len() ==> #[trigger] m@[j] < es.len(),
            k <= m@.len(),
            all_ok(k as nat, f) == Ok::<_, Seq<char>>(content_pairs_view(out@)),
        decreases m@.len() - k,
    {
        let e = &tree.entries[m[k]];
        assert(idx_view(m@)[k as int] == m@[k as int] as int);
        match make_content(e, dir, dist) {
            Err(err) => {
                proof {
                    lemma_all_ok_err((k + 1) as nat, m@.len() as nat, f);
                }
                return Err(err);
            },
            Ok(p) => {
                let ghost before = out@;
                out.push(p);
                assert(content_pairs_view(out@) =~= content_pairs_view(before).push(
                    f(k as int)->Ok_0,
                ));
            },
        }
        k = k + 1;
    }
    Ok(out)
}

/// The message of a directory without content files.
pub open spec fn no_markdown_msg(path: Seq<char>) -> Seq<char> {
    "No files ending in \".markdown\" found at the path \""@ + path + "\"."@
}

/// What finding the content files of the project at `dir` gives: every
/// `.markdown` file below it, in walk order, as a mapping by its path.
pub open spec fn contents_of(es: Seq<TreeEntry>, dir: Seq<char>, dist: Seq<char>) -> Result<
    Seq<(Seq<char>, ContentView)>,
    Seq<char>,
> {
    let m = matching(es, segments_of(dir), "markdown"@);
    if m.len() == 0 {
        Err(no_markdown_msg(dir))
    } else {
        match all_ok(m.len(), content_at(es, m, dir, dist)) {
            Err(e) => Err(e),
            Ok(v) => Ok(as_mapping(v)),
        }
    }
}

/// Finds, parses and routes the content files of the project at `dir`,
/// keyed by source path, each path once.
pub fn find_markdown_files(dir: &String, tree: &ProjectTree, config: &MandyConfig) -> (r: Result<
    Vec<(String, MandyContent)>,
    MandyErr,
>)
    ensures
        match contents_of(tree.entries@, dir@, config.dist_dir@) {
            Ok(v) => r is Ok && content_pairs_view(r->Ok_0@) == v && keys_unique(v),
            Err(m) => r is Err && r->Err_0.details@ == m,
        },
{
    let items = split_path_buf(dir);
    let m = files_below(tree, &items, "markdown");
    if m.len() == 0 {
        return Err(
            framed_err("No files ending in \".markdown\" found at the path \"", dir.as_str(), "\"."),
        );
    }
    let out = contents_in(tree, &m, dir, &config.dist_dir)?;
    let ghost raw = out@;
    let items = into_mapping(out);
    proof {
        lemma_keyed_mapping(raw, content_fn());
        lemma_contents_keyed(raw);
        lemma_contents_keyed(items@);
        lemma_mapping_unique(content_pairs_view(raw));
    }
    Ok(items)
}

/// The message of a loop-content flag without its directories.
pub open spec fn no_loop_dirs_msg() -> Seq<char> {
    "The \"has_loop_content\" flag was set to \"true\" but directories containing such content were not specified."@
}

/// The loop-content group of the directory `name` inside the project at `dir`.
pub open spec fn group_of(es: Seq<TreeEntry>, dir: Seq<char>, name: Seq<char>, dist: Seq<char>) -> Result<
    (Seq<char>, Seq<ContentView>),
    Seq<char>,
> {
    let g = child_segments(dir, name);
    let m = matching(es, g, "markdown"@);
    if m.len() == 0 {
        Err(no_markdown_msg(join_segments(g)))
    } else {
        match all_ok(m.len(), content_at(es, m, dir, dist)) {
            Err(e) => Err(e),
            Ok(cs) => Ok((name, cs.map_values(|p: (Seq<char>, ContentView)| p.1))),
        }
    }
}

/// The loop-content group of the `i`-th of the directories `ds`.
pub open spec fn group_at(es: Seq<TreeEntry>, dir: Seq<char>, ds: Seq<String>, dist: Seq<char>) -> spec_fn(
    int,
) -> Result<(Seq<char>, Seq<ContentView>), Seq<char>> {
    |i: int| group_of(es, dir, ds[i]@, dist)
}

/// The plain values of loop-content groups.
pub open spec fn groups_view(v: Seq<(String, Vec<MandyContent>)>) -> Seq<(Seq<char>, Seq<ContentView>)> {
    v.map_values(|g: (String, Vec<MandyContent>)| (g.0@, contents_view(g.1@)))
}

/// What finding the loop content of the project at `dir` with configuration
/// `c` gives: nothing unless the flag is set; an error where it names no
/// directory (no list or an empty one); else one group per configured
/// directory, named after it.
pub open spec fn loop_of(es: Seq<TreeEntry>, dir: Seq<char>, c: MandyConfig) -> Result<
    Option<Seq<(Seq<char>, Seq<ContentView>)>>,
    Seq<char>,
> {
    if !c.has_loop_content {
        Ok(None)
    } else {
        match c.loop_content_dirs {
            None => Err(no_loop_dirs_msg()),
            Some(ds) => if ds@.len() == 0 {
                Err(empty_loop_dirs_msg())
            } else {
                match all_ok(ds@.len(), group_at(es, dir, ds@, c.dist_dir@)) {
                    Err(e) => Err(e),
                    Ok(gs) => Ok(Some(as_mapping(gs))),
                }
            },
        }
    }
}

/// The content items of `v`, without their keys.
fn drop_keys(v: Vec<(String, MandyContent)>) -> (r: Vec<MandyContent>)
    ensures
        contents_view(r@) == content_pairs_view(v@).map_values(|p: (Seq<char>, ContentView)| p.1),
{
    let ghost whole = content_pairs_view(v@).map_values(|p: (Seq<char>, ContentView)| p.1);
    let mut v = v;
    let mut out: Vec<MandyContent> = Vec::new();
    assert(contents_view(out@) + content_pairs_view(v@).map_values(
        |p: (Seq<char>, ContentView)| p.1,
    ) =~= whole);
    while v.len() > 0
        invariant
            contents_view(out@) + content_pairs_view(v@).map_values(
                |p: (Seq<char>, ContentView)| p.1,
            ) == whole,
        decreases v@.len(),
    {
        let ghost before_v = v@;
        let ghost before_out = out@;
        let (_, c) = v.remove(0);
        out.push(c);
        assert(contents_view(out@) =~= contents_view(before_out).push(content_view(c)));
        assert(content_pairs_view(before_v).map_values(|p: (Seq<char>, ContentView)| p.1)
            =~= seq![content_view(c)] + content_pairs_view(v@).map_values(
            |p: (Seq<char>, ContentView)| p.1,
        ));
        assert(contents_view(out@) + content_pairs_view(v@).map_values(
            |p: (Seq<char>, ContentView)| p.1,
        ) =~= whole);
    }
    assert(contents_view(out@) =~= whole);
    out
}

/// Finds and reads the loop-content group of the directory `name`.
fn load_group(tree: &ProjectTree, dir: &String, name: &String, dist: &String) -> (r: Result<
    (String, Vec<MandyContent>),
    MandyErr,
>)
    ensures
        match group_of(tree.entries@, dir@, name@, dist@) {
            Ok((n, cs)) => r is Ok && r->Ok_0.0@ == n && contents_view(r->Ok_0.1@) == cs,
            Err(m) => r is Err && r->Err_0.details@ == m,
        },
{
    let g = child_items(dir, name.as_str());
    let m = files_below(tree, &g, "markdown");
    if m.len() == 0 {
        let p = string_vec_to_path_buf(&g);
        return Err(
            framed_err("No files ending in \".markdown\" found at the path \"", p.as_str(), "\"."),
        );
    }
    let pairs = contents_in(tree, &m, dir, dist)?;
    Ok((name.clone(), drop_keys(pairs)))
}

/// Finds the loop content of the project at `dir`: one group of content items
/// per directory that the configuration names, when its flag is set; a
/// directory named twice gives one group.
pub fn find_loop_content_files(dir: &String, tree: &ProjectTree, config: &MandyConfig) -> (r:
    Result<Option<Vec<(String, Vec<MandyContent>)>>, MandyErr>)
    ensures
        match loop_of(tree.entries@, dir@, *config) {
            Ok(Some(gs)) => r is Ok && r->Ok_0 is Some && groups_view(r->Ok_0->Some_0@) == gs
                && keys_unique(gs),
            Ok(None) => r is Ok && r->Ok_0 is None,
            Err(m) => r is Err && r->Err_0.details@ == m,
        },
{
    if !config.has_loop_content {
        return Ok(None);
    }
    let ds = match &config.loop_content_dirs {
        Some(ds) => ds,
        None => {
            return Err(
                MandyErr::new(
                    "The \"has_loop_content\" flag was set to \"true\" but directories containing such content were not specified.",
                ),
            );
        },
    };
    if ds.len() == 0 {
        return Err(MandyErr::new("The \"loop_content_dirs\" option cannot be empty."));
    }
    let ghost es = tree.entries@;
    let ghost f = group_at(es, dir@, ds@, config.dist_dir@);
    let mut out: Vec<(String, Vec<MandyContent>)> = Vec::new();
    let mut i: usize = 0;
    assert(groups_view(out@) =~= Seq::empty());
    while i < ds.len()
        invariant
            es == tree.entries@,
            config.has_loop_content,
            config.loop_content_dirs == Some(*ds),
            ds@.len() > 0,
            f == group_at(es, dir@, ds@, config.dist_dir@),
            i <= ds@.len(),
            all_ok(i as nat, f) == Ok::<_, Seq<char>>(groups_view(out@)),
        decreases ds@.len() - i,
    {
        match load_group(tree, dir, &ds[i], &config.dist_dir) {
            Err(err) => {
                proof {
                    lemma_all_ok_err((i + 1) as nat, ds@.len() as nat, f);
                }
                return Err(err);
            },
            Ok(g) => {
                let ghost before = out@;
                out.push(g);
                assert(groups_view(out@) =~= groups_view(before).push(f(i as int)->Ok_0));
            },
        }
        i = i + 1;
    }
    let ghost raw = out@;
    let m = into_mapping(out);
    proof {
        lemma_keyed_mapping(raw, group_fn());
        lemma_groups_keyed(raw);
        lemma_groups_keyed(m@);
        lemma_mapping_unique(groups_view(raw));
    }
    Ok(Some(m))
}

/// A data file as plain values: path, stem, format, records.
pub type DataView = (Seq<char>, Seq<char>, UserDataFileType, Seq<Seq<(Seq<char>, Seq<char>)>>);

/// The plain values of a data file.
pub open spec fn data_view(d: UserDataFile) -> DataView {
    (d.path@, d.file_name@, d.file_type, records_view(d.contents@))
}

/// The plain values of data files keyed by stem.
pub open spec fn data_pairs_view(v: Seq<(String, UserDataFile)>) -> Seq<(Seq<char>, DataView)> {
    v.map_values(|p: (String, UserDataFile)| (p.0@, data_view(p.1)))
}

/// The records of a data file in the format `ty`.
pub open spec fn records_for(ty: UserDataFileType, text: Seq<char>) -> Result<
    Seq<Seq<(Seq<char>, Seq<char>)>>,
    Seq<char>,
> {
    match ty {
        UserDataFileType::YAML => yaml_records_of(text),
        UserDataFileType::JSON => json_records_of(text),
    }
}

/// The message of a data file whose records cannot be read, with the
/// parser's message `why`.
pub open spec fn data_parse_msg(path: Seq<char>, why: Seq<char>) -> Seq<char> {
    "The data file \""@ + path + "\" could not be parsed: "@ + why
}

/// The message of a data directory with no data file.
pub open spec fn empty_data_msg() -> Seq<char> {
    "The project's \"data\" directory cannot be empty."@
}

/// The data file read from the file entry `e` in the format `ty`, keyed by stem.
pub open spec fn data_item(e: TreeEntry, ty: UserDataFileType) -> Result<
    (Seq<char>, DataView),
    Seq<char>,
> {
    match source_item(e) {
        Err(m) => Err(m),
        Ok((stem, text)) => match records_for(ty, text) {
            Err(why) => Err(data_parse_msg(e.path@, why)),
            Ok(rs) => Ok((stem, (e.path@, stem, ty, rs))),
        },
    }
}

/// The data file of the `k`-th of the entries `m` of `es`.
pub open spec fn data_at(es: Seq<TreeEntry>, m: Seq<int>, ty: UserDataFileType) -> spec_fn(
    int,
) -> Result<(Seq<char>, DataView), Seq<char>> {
    |k: int| data_item(es[m[k]], ty)
}

/// What finding the data files of the project at `dir` gives: nothing without
/// a `data` directory; else its YAML files, or, where it has none, its JSON
/// files, in walk order, as a mapping by stem.
pub open spec fn data_of(es: Seq<TreeEntry>, dir: Seq<char>) -> Result<
    Option<Seq<(Seq<char>, DataView)>>,
    Seq<char>,
> {
    let dd = child_segments(dir, "data"@);
    let ym = matching(es, dd, "yml"@);
    let jm = matching(es, dd, "json"@);
    if !present(es, dd) {
        Ok(None)
    } else if ym.len() == 0 && jm.len() == 0 {
        Err(empty_data_msg())
    } else {
        let (m, ty) = if ym.len() > 0 {
            (ym, UserDataFileType::YAML)
        } else {
            (jm, UserDataFileType::JSON)
        };
        match all_ok(m.len(), data_at(es, m, ty)) {
            Err(e) => Err(e),
            Ok(v) => Ok(Some(as_mapping(v))),
        }
    }
}

/// Reads the data file of the file entry `e` in the format `ty`.
fn make_data(e: &TreeEntry, ty: UserDataFileType) -> (r: Result<(String, UserDataFile), MandyErr>)
    ensures
        match data_item(*e, ty) {
            Ok((k, d)) => r is Ok && r->Ok_0.0@ == k && data_view(r->Ok_0.1) == d,
            Err(m) => r is Err && r->Err_0.details@ == m,
        },
{
    let (stem, text) = read_source(e)?;
    let parsed = match ty {
        UserDataFileType::YAML => parse_yml_data(&text),
        UserDataFileType::JSON => parse_json_data(&text),
    };
    match parsed {
        Ok(records) => {
            let file_name = stem.clone();
            Ok((stem, UserDataFile { path: e.path.clone(), file_name, file_type: ty, contents: records }))
        },
        Err(why) => {
            let mut err = framed_err("The data file \"", e.path.as_str(), "\" could not be parsed: ");
            err.details.append(why.details.as_str());
            Err(err)
        },
    }
}

/// Finds and reads the data files of the project at `dir`, keyed by stem:
/// each stem once, where it first occurs in walk order, with the last file of
/// that stem.
pub fn read_data_files(dir: &String, tree: &ProjectTree) -> (r: Result<
    Option<Vec<(String, UserDataFile)>>,
    MandyErr,
>)
    ensures
        match data_of(tree.entries@, dir@) {
            Ok(Some(v)) => r is Ok && r->Ok_0 is Some && data_pairs_view(r->Ok_0->Some_0@) == v
                && keys_unique(v),
            Ok(None) => r is Ok && r->Ok_0 is None,
            Err(m) => r is Err && r->Err_0.details@ == m,
        },
{
    let ghost es = tree.entries@;
    let dd = child_items(dir, "data");
    if find_entry(tree, &dd) >= tree.entries.len() {
        return Ok(None);
    }
    let ym = files_below(tree, &dd, "yml");
    let jm = files_below(tree, &dd, "json");
    if ym.len() == 0 && jm.len() == 0 {
        return Err(MandyErr::new("The project's \"data\" directory cannot be empty."));
    }
    let (m, ty) = if ym.len() > 0 {
        (ym, UserDataFileType::YAML)
    } else {
        (jm, UserDataFileType::JSON)
    };
    let ghost f = data_at(es, idx_view(m@), ty);
    let mut out: Vec<(String, UserDataFile)> = Vec::new();
    let mut k: usize = 0;
    assert(data_pairs_view(out@) =~= Seq::empty());
    while k < m.len()
        invariant
            es == tree.entries@,
            f == data_at(es, idx_view(m@), ty),
            present(es, child_segments(dir@, "data"@)),
            matching(es, child_segments(dir@, "data"@), "yml"@).len() > 0 || matching(
                es,
                child_segments(dir@, "data"@),
                "json"@,
            ).len() > 0,
            (idx_view(m@), ty) == (if matching(es, child_segments(dir@, "data"@), "yml"@).len()
                > 0 {
                (matching(es, child_segments(dir@, "data"@), "yml"@), UserDataFileType::YAML)
            } else {
                (matching(es, child_segments(dir@, "data"@), "json"@), UserDataFileType::JSON)
            }),
            forall|j: int| 0 <= j < m@.len() ==> #[trigger] m@[j] < es.len(),
            k <= m@.len(),
            all_ok(k as nat, f) == Ok::<_, Seq<char>>(data_pairs_view(out@)),
        decreases m@.len() - k,
    {
        let e = &tree.entries[m[k]];
        assert(idx_view(m@)[k as int] == m@[k as int] as int);
        match make_data(e, ty) {
            Err(err) => {
                proof {
                    lemma_all_ok_err((k + 1) as nat, m@.len() as nat, f);
                }
                return Err(err);
            },
            Ok(p) => {
                let ghost before = out@;
                out.push(p);
                assert(data_pairs_view(out@) =~= data_pairs_view(before).push(f(k as int)->Ok_0));
            },
        }
        k = k + 1;
    }
    let ghost raw = out@;
    let m = into_mapping(out);
    proof {
        lemma_keyed_mapping(raw, data_fn());
        lemma_data_keyed(raw);
        lemma_data_keyed(m@);
        lemma_mapping_unique(data_pairs_view(raw));
    }
    Ok(Some(m))
}

/// A project model as plain values: content items, data files, loop-content
/// groups, layouts, stylesheet entry, partials.
pub type SiteView = (
    Seq<(Seq<char>, ContentView)>,
    Option<Seq<(Seq<char>, DataView)>>,
    Option<Seq<(Seq<char>, Seq<ContentView>)>>,
    Seq<(Seq<char>, Seq<char>, Seq<char>)>,
    Option<Seq<char>>,
    Seq<(Seq<char>, Seq<char>)>,
);

/// The plain values of a project model.
pub open spec fn site_view(s: SiteInfo) -> SiteView {
    (
        content_pairs_view(s.content_files@),
        match s.data_files {
            Some(v) => Some(data_pairs_view(v@)),
            None => None,
        },
        match s.loop_content {
            Some(v) => Some(groups_view(v@)),
            None => None,
        },
        s.layouts@.map_values(|l: LayoutFile| layout_view(l)),
        match s.sass_dir {
            Some(p) => Some(p@),
            None => None,
        },
        pairs_view(s.partials@),
    )
}

/// What assembling the project at `dir` with configuration `c` gives: each
/// part in turn, or the first failure.
pub open spec fn site_of(es: Seq<TreeEntry>, dir: Seq<char>, c: MandyConfig) -> Result<
    SiteView,
    Seq<char>,
> {
    match contents_of(es, dir, c.dist_dir@) {
        Err(e) => Err(e),
        Ok(cs) => match data_of(es, dir) {
            Err(e) => Err(e),
            Ok(ds) => match loop_of(es, dir, c) {
                Err(e) => Err(e),
                Ok(ls) => match layouts_of(es, dir) {
                    Err(e) => Err(e),
                    Ok(lays) => match sass_of(es, dir) {
                        Err(e) => Err(e),
                        Ok(sass) => match partials_of(es, dir) {
                            Err(e) => Err(e),
                            Ok(ps) => Ok((cs, ds, ls, lays, sass, ps)),
                        },
                    },
                },
            },
        },
    }
}

/// Builds the model of the project at `dir` from a snapshot of its directory
/// and its configuration: content, data, loop content, layouts, stylesheet
/// entry and partials, in that order, stopping at the first failure.
pub fn gather_project_data(dir: &String, tree: &ProjectTree, config: ConfigFile) -> (r: Result<
    SiteInfo,
    MandyErr,
>)
    ensures
        match site_of(tree.entries@, dir@, config.contents) {
            Ok(v) => r is Ok && site_view(r->Ok_0) == v && r->Ok_0.config == config,
            Err(m) => r is Err && r->Err_0.details@ == m,
        },
{
    let content_files = find_markdown_files(dir, tree, &config.contents)?;
    let data_files = read_data_files(dir, tree)?;
    let loop_content = find_loop_content_files(dir, tree, &config.contents)?;
    let layouts = find_layout_files(dir, tree)?;
    let sass_dir = find_sass_files(dir, tree)?;
    let partials = retrieve_partials(dir, tree)?;
    Ok(SiteInfo { config, content_files, data_files, loop_content, layouts, sass_dir, partials })
}


/// The keys of keyed pairs of strings and values.
pub open spec fn raw_keys<V>(s: Seq<(String, V)>) -> Seq<Seq<char>> {
    s.map_values(|p: (String, V)| p.0@)
}

/// `s` with the pair `p` put in: it replaces the first pair with the same
/// key, or is added at the end.
pub open spec fn upsert_raw<V>(s: Seq<(String, V)>, p: (String, V)) -> Seq<(String, V)> {
    let i = first_index(raw_keys(s), p.0@);
    if i < s.len() {
        s.update(i, p)
    } else {
        s.push(p)
    }
}

/// The pairs `v` put in one after another: each key once, at the place where
/// it first occurs, with the value of its last occurrence.
pub open spec fn mapping_raw<V>(v: Seq<(String, V)>) -> Seq<(String, V)>
    decreases v.len(),
{
    if v.len() == 0 {
        Seq::empty()
    } else {
        upsert_raw(mapping_raw(v.drop_last()), v.last())
    }
}

/// Keyed pairs seen through `f`: keys as text, values as `f` shows them.
pub open spec fn keyed<V, W>(s: Seq<(String, V)>, f: spec_fn(V) -> W) -> Seq<(Seq<char>, W)> {
    s.map_values(|p: (String, V)| (p.0@, f(p.1)))
}

/// The keys of keyed pairs.
pub open spec fn keys_of<W>(s: Seq<(Seq<char>, W)>) -> Seq<Seq<char>> {
    s.map_values(|p: (Seq<char>, W)| p.0)
}

/// `s` with the pair `(k, w)` put in: it replaces the first pair with key
/// `k`, or is added at the end.
pub open spec fn upsert_one<W>(s: Seq<(Seq<char>, W)>, k: Seq<char>, w: W) -> Seq<(Seq<char>, W)> {
    let i = first_index(keys_of(s), k);
    if i < s.len() {
        s.update(i, (k, w))
    } else {
        s.push((k, w))
    }
}

/// The pairs `v` as a mapping: each key once, at the place where it first
/// occurs, with the value of its last occurrence.
pub open spec fn as_mapping<W>(v: Seq<(Seq<char>, W)>) -> Seq<(Seq<char>, W)>
    decreases v.len(),
{
    if v.len() == 0 {
        Seq::empty()
    } else {
        upsert_one(as_mapping(v.drop_last()), v.last().0, v.last().1)
    }
}

/// Whether no two pairs of `s` share a key.
pub open spec fn keys_unique<W>(s: Seq<(Seq<char>, W)>) -> bool {
    forall|i: int, j: int|
        0 <= i < j < s.len() ==> #[trigger] keys_of(s)[i] != #[trigger] keys_of(s)[j]
}

/// A mapping holds each key once.
pub proof fn lemma_mapping_unique<W>(v: Seq<(Seq<char>, W)>)
    ensures
        keys_unique(as_mapping(v)),
    decreases v.len(),
{
    if v.len() > 0 {
        lemma_mapping_unique(v.drop_last());
        let r = as_mapping(v.drop_last());
        let k = v.last().0;
        let i = first_index(keys_of(r), k);
        lemma_first_index(keys_of(r), k);
        let m = as_mapping(v);
        if i < r.len() {
            assert(keys_of(m) =~= keys_of(r));
        } else {
            assert(keys_of(m) =~= keys_of(r).push(k));
            assert forall|a: int, b: int| 0 <= a < b < m.len() implies #[trigger] keys_of(m)[a]
                != #[trigger] keys_of(m)[b] by {
                if b == r.len() {
                    assert(keys_of(r)[a] != k);
                } else {
                    assert(keys_of(r)[a] != keys_of(r)[b]);
                }
            }
        }
    }
}

proof fn lemma_upsert_keyed<V, W>(s: Seq<(String, V)>, p: (String, V), f: spec_fn(V) -> W)
    ensures
        keyed(upsert_raw(s, p), f) == upsert_one(keyed(s, f), p.0@, f(p.1)),
{
    assert(raw_keys(s) =~= keys_of(keyed(s, f)));
    let i = first_index(raw_keys(s), p.0@);
    lemma_first_index(raw_keys(s), p.0@);
    if i < s.len() {
        assert(keyed(s.update(i, p), f) =~= keyed(s, f).update(i, (p.0@, f(p.1))));
    } else {
        assert(keyed(s.push(p), f) =~= keyed(s, f).push((p.0@, f(p.1))));
    }
}

/// Putting pairs in and then viewing them is viewing them and then putting
/// them in.
pub proof fn lemma_keyed_mapping<V, W>(v: Seq<(String, V)>, f: spec_fn(V) -> W)
    ensures
        keyed(mapping_raw(v), f) == as_mapping(keyed(v, f)),
    decreases v.len(),
{
    if v.len() > 0 {
        lemma_keyed_mapping(v.drop_last(), f);
        lemma_upsert_keyed(mapping_raw(v.drop_last()), v.last(), f);
        assert(keyed(v, f).drop_last() =~= keyed(v.drop_last(), f));
        assert(keyed(v, f).last() == (v.last().0@, f(v.last().1)));
    }
}

/// The index of the first pair of `v` with key `k`, or the length.
fn key_position<V>(v: &Vec<(String, V)>, k: &String) -> (r: usize)
    ensures
        r == first_index(raw_keys(v@), k@),
{
    let ghost s = raw_keys(v@);
    let mut i: usize = 0;
    while i < v.len()
        invariant
            i <= v@.len(),
            s == raw_keys(v@),
            forall|j: int| 0 <= j < i ==> s[j] != k@,
        decreases v@.len() - i,
    {
        if v[i].0 == *k {
            proof {
                lemma_first_index_at(s, k@, i as int);
            }
            return i;
        }
        i = i + 1;
    }
    proof {
        lemma_first_index_at(s, k@, i as int);
    }
    i
}

/// Puts the pairs of `v` in one after another, as `mapping_raw` says.
pub fn into_mapping<V>(v: Vec<(String, V)>) -> (r: Vec<(String, V)>)
    ensures
        r@ == mapping_raw(v@),
{
    let ghost all = v@;
    let mut v = v;
    let mut out: Vec<(String, V)> = Vec::new();
    let ghost k: int = 0;
    while v.len() > 0
        invariant
            0 <= k <= all.len(),
            v@ == all.subrange(k, all.len() as int),
            out@ == mapping_raw(all.subrange(0, k)),
        decreases v@.len(),
    {
        let p = v.remove(0);
        proof {
            assert(p == all[k]);
            assert(all.subrange(0, k + 1).drop_last() =~= all.subrange(0, k));
            assert(all.subrange(0, k + 1).last() == p);
        }
        let i = key_position(&out, &p.0);
        if i < out.len() {
            out.set(i, p);
        } else {
            out.push(p);
        }
        proof {
            k = k + 1;
        }
        assert(v@ =~= all.subrange(k, all.len() as int));
    }
    assert(all.subrange(0, k) =~= all);
    out
}


/// Text seen as its characters.
pub open spec fn text_fn() -> spec_fn(String) -> Seq<char> {
    |s: String| s@
}

/// A content item seen as plain values.
pub open spec fn content_fn() -> spec_fn(MandyContent) -> ContentView {
    |c: MandyContent| content_view(c)
}

/// A loop-content group seen as plain values.
pub open spec fn group_fn() -> spec_fn(Vec<MandyContent>) -> Seq<ContentView> {
    |g: Vec<MandyContent>| contents_view(g@)
}

/// A data file seen as plain values.
pub open spec fn data_fn() -> spec_fn(UserDataFile) -> DataView {
    |d: UserDataFile| data_view(d)
}

proof fn lemma_pairs_keyed(v: Seq<(String, String)>)
    ensures
        pairs_view(v) == keyed(v, text_fn()),
{
    assert(pairs_view(v) =~= keyed(v, text_fn()));
}

proof fn lemma_contents_keyed(v: Seq<(String, MandyContent)>)
    ensures
        content_pairs_view(v) == keyed(v, content_fn()),
{
    assert(content_pairs_view(v) =~= keyed(v, content_fn()));
}

proof fn lemma_groups_keyed(v: Seq<(String, Vec<MandyContent>)>)
    ensures
        groups_view(v) == keyed(v, group_fn()),
{
    assert(groups_view(v) =~= keyed(v, group_fn()));
}

proof fn lemma_data_keyed(v: Seq<(String, UserDataFile)>)
    ensures
        data_pairs_view(v) == keyed(v, data_fn()),
{
    assert(data_pairs_view(v) =~= keyed(v, data_fn()));
}

} // verus!
