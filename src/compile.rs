//! The decisions of a compile run: which layout renders which item, what a
//! template sees, where pages go, and when a run must stop.
use vstd::prelude::*;
use vstd::string::*;
use crate::content::{pairs_view, records_view};
use crate::err::{framed_err, framed_err2, MandyErr};
use crate::gather::{
    all_ok, child_items, child_path, child_segments, content_view, contents_view, groups_view,
    layout_view, lemma_all_ok_err, ContentView,
};
use crate::paths::{join_segments, seg_views, split_path_buf, string_vec_to_path_buf};
use crate::units::{
    lines, sitemap_head, url_element, url_elements, LayoutFile, MandyConfig, MandyContent, Record,
    SiteContext, SiteInfo, SiteMap, SiteMapUrl, UserDataFile,
};

verus! {

/// Copies a record.
fn copy_record(r: &Record) -> (c: Record)
    ensures
        pairs_view(c@) == pairs_view(r@),
{
    let mut c: Record = Vec::new();
    let mut i: usize = 0;
    while i < r.len()
        invariant
            i <= r@.len(),
            pairs_view(c@) == pairs_view(r@).subrange(0, i as int),
        decreases r@.len() - i,
    {
        let ghost before = c@;
        let k = r[i].0.clone();
        let v = r[i].1.clone();
        c.push((k, v));
        assert(pairs_view(c@) =~= pairs_view(before).push((k@, v@)));
        assert(pairs_view(c@) =~= pairs_view(r@).subrange(0, i + 1));
        i = i + 1;
    }
    assert(pairs_view(r@).subrange(0, r@.len() as int) =~= pairs_view(r@));
    c
}

/// Copies a list of records.
fn copy_records(v: &Vec<Record>) -> (c: Vec<Record>)
    ensures
        records_view(c@) == records_view(v@),
{
    let mut c: Vec<Record> = Vec::new();
    let mut i: usize = 0;
    while i < v.len()
        invariant
            i <= v@.len(),
            records_view(c@) == records_view(v@).subrange(0, i as int),
        decreases v@.len() - i,
    {
        let ghost before = c@;
        let rec = copy_record(&v[i]);
        c.push(rec);
        assert(records_view(c@) =~= records_view(before).push(pairs_view(rec@)));
        assert(records_view(c@) =~= records_view(v@).subrange(0, i + 1));
        i = i + 1;
    }
    assert(records_view(v@).subrange(0, v@.len() as int) =~= records_view(v@));
    c
}

/// Copies a content item.
fn copy_content(c: &MandyContent) -> (r: MandyContent)
    ensures
        content_view(r) == content_view(*c),
{
    MandyContent {
        layout: c.layout.clone(),
        params: copy_record(&c.params),
        content: c.content.clone(),
        url: c.url.clone(),
        path: c.path.clone(),
    }
}

/// Copies loop-content groups.
fn copy_groups(v: &Vec<(String, Vec<MandyContent>)>) -> (r: Vec<(String, Vec<MandyContent>)>)
    ensures
        groups_view(r@) == groups_view(v@),
{
    let mut r: Vec<(String, Vec<MandyContent>)> = Vec::new();
    let mut i: usize = 0;
    while i < v.len()
        invariant
            i <= v@.len(),
            groups_view(r@) == groups_view(v@).subrange(0, i as int),
        decreases v@.len() - i,
    {
        let items = &v[i].1;
        let mut copied: Vec<MandyContent> = Vec::new();
        let mut j: usize = 0;
        while j < items.len()
            invariant
                j <= items@.len(),
                contents_view(copied@) == contents_view(items@).subrange(0, j as int),
            decreases items@.len() - j,
        {
            let ghost before = copied@;
            let one = copy_content(&items[j]);
            copied.push(one);
            assert(contents_view(copied@) =~= contents_view(before).push(content_view(one)));
            assert(contents_view(copied@) =~= contents_view(items@).subrange(0, j + 1));
            j = j + 1;
        }
        assert(contents_view(items@).subrange(0, items@.len() as int) =~= contents_view(items@));
        let ghost before = r@;
        let name = v[i].0.clone();
        assert(contents_view(copied@) == contents_view(items@));
        r.push((name, copied));
        assert(groups_view(r@) =~= groups_view(before).push((name@, contents_view(copied@))));
        assert(groups_view(r@) =~= groups_view(v@).subrange(0, i + 1));
        i = i + 1;
    }
    assert(groups_view(v@).subrange(0, v@.len() as int) =~= groups_view(v@));
    r
}

/// Copies a list of strings.
fn copy_strings(v: &Vec<String>) -> (r: Vec<String>)
    ensures
        seg_views(r@) == seg_views(v@),
{
    let mut r: Vec<String> = Vec::new();
    let mut i: usize = 0;
    while i < v.len()
        invariant
            i <= v@.len(),
            seg_views(r@) == seg_views(v@).subrange(0, i as int),
        decreases v@.len() - i,
    {
        let ghost before = r@;
        let s = v[i].clone();
        r.push(s);
        assert(seg_views(r@) =~= seg_views(before).push(s@));
        assert(seg_views(r@) =~= seg_views(v@).subrange(0, i + 1));
        i = i + 1;
    }
    assert(seg_views(v@).subrange(0, v@.len() as int) =~= seg_views(v@));
    r
}

/// The plain values of an optional list of strings.
pub open spec fn opt_strings_view(o: Option<Vec<String>>) -> Option<Seq<Seq<char>>> {
    match o {
        Some(v) => Some(seg_views(v@)),
        None => None,
    }
}

/// A configuration as plain values.
pub open spec fn config_view(c: MandyConfig) -> (
    (Seq<char>, bool, Seq<char>, Seq<char>, Seq<char>, Seq<char>),
    (Seq<char>, bool, bool, Option<Seq<Seq<char>>>, Option<Seq<Seq<char>>>),
    Seq<(Seq<char>, Seq<char>)>,
) {
    (
        (c.tl_domain@, c.seo, c.title@, c.dist_dir@, c.description@, c.prod_url@),
        (
            c.dev_url@,
            c.copy_files,
            c.has_loop_content,
            opt_strings_view(c.copy_entities),
            opt_strings_view(c.loop_content_dirs),
        ),
        pairs_view(c.user_config@),
    )
}

/// Copies a configuration.
fn copy_config(c: &MandyConfig) -> (r: MandyConfig)
    ensures
        config_view(r) == config_view(*c),
{
    let copy_entities = match &c.copy_entities {
        Some(v) => Some(copy_strings(v)),
        None => None,
    };
    let loop_content_dirs = match &c.loop_content_dirs {
        Some(v) => Some(copy_strings(v)),
        None => None,
    };
    MandyConfig {
        tl_domain: c.tl_domain.clone(),
        seo: c.seo,
        title: c.title.clone(),
        dist_dir: c.dist_dir.clone(),
        description: c.description.clone(),
        prod_url: c.prod_url.clone(),
        dev_url: c.dev_url.clone(),
        copy_files: c.copy_files,
        has_loop_content: c.has_loop_content,
        copy_entities,
        loop_content_dirs,
        user_config: copy_record(&c.user_config),
    }
}

/// The index of the first layout named `name`, or the length where there is none.
pub open spec fn layout_index(ls: Seq<LayoutFile>, name: Seq<char>) -> int
    decreases ls.len(),
{
    if ls.len() == 0 {
        0
    } else if ls[0].name@ == name {
        0
    } else {
        1 + layout_index(ls.drop_first(), name)
    }
}

proof fn lemma_layout_index_at(ls: Seq<LayoutFile>, name: Seq<char>, i: int)
    requires
        0 <= i <= ls.len(),
        forall|j: int| 0 <= j < i ==> #[trigger] ls[j].name@ != name,
        i == ls.len() || ls[i].name@ == name,
    ensures
        layout_index(ls, name) == i,
    decreases i,
{
    if i > 0 {
        let t = ls.drop_first();
        assert(ls[0].name@ != name);
        assert forall|j: int| 0 <= j < i - 1 implies #[trigger] t[j].name@ != name by {
            assert(t[j] == ls[j + 1]);
        }
        if i < ls.len() {
            assert(t[i - 1] == ls[i]);
        }
        lemma_layout_index_at(t, name, i - 1);
    }
}

/// The message of a layout name that no layout has.
pub open spec fn layout_not_found_msg(name: Seq<char>) -> Seq<char> {
    "The requested layout \""@ + name + "\" could not be found."@
}

/// Finds the layout named `layout`; where several share the name, the first.
pub fn get_layout_by_name(layout: &String, layouts: &Vec<LayoutFile>) -> (r: Result<
    LayoutFile,
    MandyErr,
>)
    ensures
        ({
            let i = layout_index(layouts@, layout@);
            if i < layouts@.len() {
                r is Ok && layout_view(r->Ok_0) == layout_view(layouts@[i])
            } else {
                r is Err && r->Err_0.details@ == layout_not_found_msg(layout@)
            }
        }),
{
    let mut i: usize = 0;
    while i < layouts.len()
        invariant
            i <= layouts@.len(),
            forall|j: int| 0 <= j < i ==> #[trigger] layouts@[j].name@ != layout@,
        decreases layouts@.len() - i,
    {
        if layouts[i].name == *layout {
            proof {
                lemma_layout_index_at(layouts@, layout@, i as int);
            }
            let l = &layouts[i];
            return Ok(
                LayoutFile { name: l.name.clone(), path: l.path.clone(), contents: l.contents.clone() },
            );
        }
        i = i + 1;
    }
    proof {
        lemma_layout_index_at(layouts@, layout@, i as int);
    }
    Err(framed_err("The requested layout \"", layout.as_str(), "\" could not be found."))
}

/// The records of data files, keyed by file stem, as templates see them.
pub open spec fn cleaned_view(v: Seq<(String, UserDataFile)>) -> Seq<
    (Seq<char>, Seq<Seq<(Seq<char>, Seq<char>)>>),
> {
    v.map_values(|p: (String, UserDataFile)| (p.1.file_name@, records_view(p.1.contents@)))
}

/// The plain values of data as templates see it.
pub open spec fn data_map_view(v: Seq<(String, Vec<Record>)>) -> Seq<
    (Seq<char>, Seq<Seq<(Seq<char>, Seq<char>)>>),
> {
    v.map_values(|p: (String, Vec<Record>)| (p.0@, records_view(p.1@)))
}

/// Reduces each data file to its stem and its records.
pub fn clean_data(subject: &Vec<(String, UserDataFile)>) -> (r: Vec<(String, Vec<Record>)>)
    ensures
        data_map_view(r@) == cleaned_view(subject@),
{
    let mut r: Vec<(String, Vec<Record>)> = Vec::new();
    let mut i: usize = 0;
    while i < subject.len()
        invariant
            i <= subject@.len(),
            data_map_view(r@) == cleaned_view(subject@).subrange(0, i as int),
        decreases subject@.len() - i,
    {
        let d = &subject[i].1;
        let ghost before = r@;
        let name = d.file_name.clone();
        let recs = copy_records(&d.contents);
        r.push((name, recs));
        assert(data_map_view(r@) =~= data_map_view(before).push((name@, records_view(recs@))));
        assert(data_map_view(r@) =~= cleaned_view(subject@).subrange(0, i + 1));
        i = i + 1;
    }
    assert(cleaned_view(subject@).subrange(0, subject@.len() as int) =~= cleaned_view(subject@));
    r
}

/// The message of an environment that is neither production nor development.
pub open spec fn invalid_env_msg() -> Seq<char> {
    "The environment must be set to either \"production\" or \"development\"!"@
}

/// The base URL of the environment `env`, or the message of an unknown one.
pub open spec fn base_url_of(c: MandyConfig, env: Seq<char>) -> Result<Seq<char>, Seq<char>> {
    if env == "production"@ {
        Ok(c.prod_url@)
    } else if env == "development"@ {
        Ok(c.dev_url@)
    } else {
        Err(invalid_env_msg())
    }
}

/// Chooses the base URL of the environment `env`: `production` or `development`.
pub fn select_base_url(config: &MandyConfig, env: &String) -> (r: Result<String, MandyErr>)
    ensures
        match base_url_of(*config, env@) {
            Ok(u) => r is Ok && r->Ok_0@ == u,
            Err(m) => r is Err && r->Err_0.details@ == m,
        },
{
    if *env == String::from_str("production") {
        Ok(config.prod_url.clone())
    } else if *env == String::from_str("development") {
        Ok(config.dev_url.clone())
    } else {
        Err(
            MandyErr::new(
                "The environment must be set to either \"production\" or \"development\"!",
            ),
        )
    }
}

/// Builds what a template sees when `page` is rendered: the configuration,
/// the page, the loop content, the data reduced to records, the base URL.
pub fn build_context(info: &SiteInfo, page: MandyContent, baseurl: &String) -> (r: SiteContext)
    ensures
        config_view(r.site) == config_view(info.config.contents),
        r.page == page,
        r.baseurl@ == baseurl@,
        match info.loop_content {
            Some(v) => r.loop_content is Some && groups_view(r.loop_content->Some_0@)
                == groups_view(v@),
            None => r.loop_content is None,
        },
        match info.data_files {
            Some(v) => r.data is Some && data_map_view(r.data->Some_0@) == cleaned_view(v@),
            None => r.data is None,
        },
{
    let loop_content = match &info.loop_content {
        Some(v) => Some(copy_groups(v)),
        None => None,
    };
    let data = match &info.data_files {
        Some(v) => Some(clean_data(v)),
        None => None,
    };
    SiteContext {
        site: copy_config(&info.config.contents),
        page,
        loop_content,
        data,
        baseurl: baseurl.clone(),
    }
}

/// One page to render: where it goes, the layout source, what it sees.
#[derive(Debug)]
pub struct PageJob {
    pub output: String,
    pub template: String,
    pub context: SiteContext,
}

/// The output path and layout source of the `k`-th content item.
pub open spec fn page_item(info: SiteInfo, k: int) -> Result<(Seq<char>, Seq<char>), Seq<char>> {
    let c = info.content_files@[k].1;
    let i = layout_index(info.layouts@, c.layout@);
    if i < info.layouts@.len() {
        Ok((c.path@, info.layouts@[i].contents@))
    } else {
        Err(layout_not_found_msg(c.layout@))
    }
}

/// The `k`-th page of `info`.
pub open spec fn page_at(info: SiteInfo) -> spec_fn(int) -> Result<(Seq<char>, Seq<char>), Seq<char>> {
    |k: int| page_item(info, k)
}

/// The output paths and layout sources of pages.
pub open spec fn jobs_view(v: Seq<PageJob>) -> Seq<(Seq<char>, Seq<char>)> {
    v.map_values(|j: PageJob| (j.output@, j.template@))
}

/// Whether each page of `jobs` renders the content item at its position in
/// `contents` with the base URL `u`.
pub open spec fn pages_match(jobs: Seq<PageJob>, info: SiteInfo, u: Seq<char>) -> bool {
    &&& jobs.len() <= info.content_files@.len()
    &&& forall|k: int|
        0 <= k < jobs.len() ==> #[trigger] content_view(jobs[k].context.page) == content_view(
            info.content_files@[k].1,
        ) && jobs[k].context.baseurl@ == u && context_matches(jobs[k].context, info)
}

/// Whether the context `c` shows the configuration, loop content and data of
/// `info` as `build_context` makes them.
pub open spec fn context_matches(c: SiteContext, info: SiteInfo) -> bool {
    &&& config_view(c.site) == config_view(info.config.contents)
    &&& match info.loop_content {
        Some(v) => c.loop_content is Some && groups_view(c.loop_content->Some_0@) == groups_view(
            v@,
        ),
        None => c.loop_content is None,
    }
    &&& match info.data_files {
        Some(v) => c.data is Some && data_map_view(c.data->Some_0@) == cleaned_view(v@),
        None => c.data is None,
    }
}

/// Plans the rendering of every content item in the environment `env`: its
/// output path, its layout's source and its context. Fails on an unknown
/// environment, then on the first item whose layout does not exist.
pub fn plan_pages(info: &SiteInfo, env: &String) -> (r: Result<Vec<PageJob>, MandyErr>)
    ensures
        match base_url_of(info.config.contents, env@) {
            Err(m) => r is Err && r->Err_0.details@ == m,
            Ok(u) => match all_ok(info.content_files@.len() as nat, page_at(*info)) {
                Err(m) => r is Err && r->Err_0.details@ == m,
                Ok(v) => r is Ok && jobs_view(r->Ok_0@) == v && pages_match(r->Ok_0@, *info, u),
            },
        },
{
    let baseurl = select_base_url(&info.config.contents, env)?;
    let ghost f = page_at(*info);
    let mut jobs: Vec<PageJob> = Vec::new();
    let mut k: usize = 0;
    assert(jobs_view(jobs@) =~= Seq::empty());
    while k < info.content_files.len()
        invariant
            f == page_at(*info),
            base_url_of(info.config.contents, env@) == Ok::<Seq<char>, Seq<char>>(baseurl@),
            k <= info.content_files@.len(),
            jobs@.len() == k,
            all_ok(k as nat, f) == Ok::<_, Seq<char>>(jobs_view(jobs@)),
            pages_match(jobs@, *info, baseurl@),
        decreases info.content_files@.len() - k,
    {
        let c = &info.content_files[k].1;
        match get_layout_by_name(&c.layout, &info.layouts) {
            Err(err) => {
                proof {
                    lemma_all_ok_err((k + 1) as nat, info.content_files@.len() as nat, f);
                }
                return Err(err);
            },
            Ok(layout) => {
                let context = build_context(info, copy_content(c), &baseurl);
                let ghost before = jobs@;
                jobs.push(PageJob { output: c.path.clone(), template: layout.contents, context });
                assert(jobs@[k as int].context.baseurl@ == baseurl@);
                assert forall|j: int| 0 <= j < jobs@.len() implies #[trigger] content_view(
                    jobs@[j].context.page,
                ) == content_view(info.content_files@[j].1) && jobs@[j].context.baseurl@
                    == baseurl@ && context_matches(jobs@[j].context, *info) by {
                    if j < k {
                        assert(jobs@[j] == before[j]);
                    }
                }
                assert(jobs_view(jobs@) =~= jobs_view(before).push(f(k as int)->Ok_0));
            },
        }
        k = k + 1;
    }
    Ok(jobs)
}

/// The message of an output file that is already there.
pub open spec fn output_exists_msg(path: Seq<char>) -> Seq<char> {
    "Filesystem at \""@ + path + "\" already exists."@
}

/// The index of the first `true` of `v`, or the length where there is none.
pub open spec fn first_true(v: Seq<bool>) -> int
    decreases v.len(),
{
    if v.len() == 0 {
        0
    } else if v[0] {
        0
    } else {
        1 + first_true(v.drop_first())
    }
}

proof fn lemma_first_true_at(v: Seq<bool>, i: int)
    requires
        0 <= i <= v.len(),
        forall|j: int| 0 <= j < i ==> !#[trigger] v[j],
        i == v.len() || v[i],
    ensures
        first_true(v) == i,
    decreases i,
{
    if i > 0 {
        let t = v.drop_first();
        assert(!v[0]);
        assert forall|j: int| 0 <= j < i - 1 implies !#[trigger] t[j] by {
            assert(t[j] == v[j + 1]);
        }
        if i < v.len() {
            assert(t[i - 1] == v[i]);
        }
        lemma_first_true_at(t, i - 1);
    }
}

/// The index of the first `true` of `v`.
fn first_true_index(v: &Vec<bool>) -> (r: usize)
    ensures
        r == first_true(v@),
        r <= v@.len(),
        r < v@.len() ==> v@[r as int],
{
    let mut i: usize = 0;
    while i < v.len()
        invariant
            i <= v@.len(),
            forall|j: int| 0 <= j < i ==> !#[trigger] v@[j],
        decreases v@.len() - i,
    {
        if v[i] {
            proof {
                lemma_first_true_at(v@, i as int);
            }
            return i;
        }
        i = i + 1;
    }
    proof {
        lemma_first_true_at(v@, i as int);
    }
    i
}

/// Refuses to write pages over files that are already there: `taken[k]` says
/// whether the output of `jobs[k]` exists. Fails, naming the first such
/// output, exactly when one exists, so that nothing is written.
pub fn ensure_outputs_absent(jobs: &Vec<PageJob>, taken: &Vec<bool>) -> (r: Result<(), MandyErr>)
    requires
        taken@.len() == jobs@.len(),
    ensures
        r is Err <==> exists|k: int| 0 <= k < taken@.len() && taken@[k],
        r is Err ==> r->Err_0.details@ == output_exists_msg(jobs@[first_true(taken@)].output@),
{
    let i = first_true_index(taken);
    if i < taken.len() {
        assert(taken@[i as int]);
        return Err(
            framed_err("Filesystem at \"", jobs[i].output.as_str(), "\" already exists."),
        );
    }
    assert forall|k: int| 0 <= k < taken@.len() implies !taken@[k] by {
        if taken@[k] {
            lemma_first_true_found(taken@, k);
        }
    }
    Ok(())
}

proof fn lemma_first_true_found(v: Seq<bool>, k: int)
    requires
        0 <= k < v.len(),
        v[k],
    ensures
        first_true(v) <= k,
    decreases k,
{
    if k > 0 && !v[0] {
        assert(v.drop_first()[k - 1] == v[k]);
        lemma_first_true_found(v.drop_first(), k - 1);
    }
}

/// The on-disk paths of the pages of loop content, group by group.
pub open spec fn loop_outputs(v: Seq<Seq<ContentView>>) -> Seq<Seq<char>>
    decreases v.len(),
{
    if v.len() == 0 {
        Seq::empty()
    } else {
        loop_outputs(v.drop_last()) + v.last().map_values(|c: ContentView| c.4)
    }
}

/// Lists the on-disk paths of the pages of loop content, group by group.
pub fn loop_content_outputs(groups: &Vec<(String, Vec<MandyContent>)>) -> (r: Vec<String>)
    ensures
        seg_views(r@) == loop_outputs(groups_view(groups@).map_values(
            |g: (Seq<char>, Seq<ContentView>)| g.1,
        )),
{
    let ghost gs = groups_view(groups@).map_values(|g: (Seq<char>, Seq<ContentView>)| g.1);
    let mut r: Vec<String> = Vec::new();
    let mut i: usize = 0;
    assert(gs.subrange(0, 0) =~= Seq::<Seq<ContentView>>::empty());
    assert(seg_views(r@) =~= Seq::<Seq<char>>::empty());
    while i < groups.len()
        invariant
            i <= groups@.len(),
            gs == groups_view(groups@).map_values(|g: (Seq<char>, Seq<ContentView>)| g.1),
            seg_views(r@) == loop_outputs(gs.subrange(0, i as int)),
        decreases groups@.len() - i,
    {
        let items = &groups[i].1;
        let ghost start = seg_views(r@);
        let ghost cur = gs[i as int];
        assert(cur == contents_view(items@));
        let mut j: usize = 0;
        assert(seg_views(r@) =~= start + cur.subrange(0, 0).map_values(|c: ContentView| c.4));
        while j < items.len()
            invariant
                j <= items@.len(),
                cur == contents_view(items@),
                seg_views(r@) == start + cur.subrange(0, j as int).map_values(
                    |c: ContentView| c.4,
                ),
            decreases items@.len() - j,
        {
            let ghost before = r@;
            let p = items[j].path.clone();
            r.push(p);
            assert(seg_views(r@) =~= seg_views(before).push(p@));
            assert(cur[j as int].4 == p@);
            assert(cur.subrange(0, j + 1).map_values(|c: ContentView| c.4) =~= cur.subrange(
                0,
                j as int,
            ).map_values(|c: ContentView| c.4).push(cur[j as int].4));
            assert(seg_views(r@) =~= start + cur.subrange(0, j + 1).map_values(
                |c: ContentView| c.4,
            ));
            j = j + 1;
        }
        assert(cur.subrange(0, items@.len() as int) =~= cur);
        assert(gs.subrange(0, i + 1).drop_last() =~= gs.subrange(0, i as int));
        i = i + 1;
    }
    assert(gs.subrange(0, groups@.len() as int) =~= gs);
    r
}

/// The message of a loop-content page that was not generated.
pub open spec fn not_generated_msg(path: Seq<char>) -> Seq<char> {
    "The following file from the loop content directories could not be generated: \""@ + path
        + "\""@
}

/// Checks that every page of loop content was generated: `generated[k]` says
/// whether `outputs[k]` exists. Fails, naming the first missing page, exactly
/// when one is missing.
pub fn compile_loop_content_files(outputs: &Vec<String>, generated: &Vec<bool>) -> (r: Result<
    (),
    MandyErr,
>)
    requires
        generated@.len() == outputs@.len(),
    ensures
        r is Err <==> exists|k: int| 0 <= k < generated@.len() && !generated@[k],
        r is Err ==> exists|k: int|
            0 <= k < outputs@.len() && !generated@[k] && (forall|j: int|
                0 <= j < k ==> #[trigger] generated@[j]) && r->Err_0.details@ == not_generated_msg(
                outputs@[k]@,
            ),
{
    let mut i: usize = 0;
    while i < generated.len()
        invariant
            i <= generated@.len(),
            generated@.len() == outputs@.len(),
            forall|j: int| 0 <= j < i ==> #[trigger] generated@[j],
        decreases generated@.len() - i,
    {
        if !generated[i] {
            assert(!generated@[i as int]);
            return Err(
                framed_err(
                    "The following file from the loop content directories could not be generated: \"",
                    outputs[i].as_str(),
                    "\"",
                ),
            );
        }
        i = i + 1;
    }
    Ok(())
}

/// The path of the configured output directory of the project at `dir`:
/// what a clean removes, and nothing else.
pub fn output_dir_path(dir: &String, config: &MandyConfig) -> (r: String)
    ensures
        r@ == child_path(dir@, config.dist_dir@),
{
    let mut items = split_path_buf(dir);
    let ghost before = items@;
    items.push(config.dist_dir.clone());
    assert(seg_views(items@) =~= seg_views(before).push(config.dist_dir@));
    string_vec_to_path_buf(&items)
}

/// The public URLs of the sitemap of a site on `domain`: one per content item.
pub open spec fn sitemap_urls(domain: Seq<char>, contents: Seq<(String, MandyContent)>) -> Seq<
    Seq<char>,
> {
    contents.map_values(|p: (String, MandyContent)| domain + p.1.url@)
}

/// Builds the sitemap of a site on `domain`: the domain followed by the public
/// link of each content item, in order.
pub fn build_sitemap(domain: &String, contents: &Vec<(String, MandyContent)>) -> (r: SiteMap)
    ensures
        r.urls@.map_values(|u: SiteMapUrl| u.url@) == sitemap_urls(domain@, contents@),
{
    let mut urls: Vec<SiteMapUrl> = Vec::new();
    let mut i: usize = 0;
    while i < contents.len()
        invariant
            i <= contents@.len(),
            urls@.map_values(|u: SiteMapUrl| u.url@) == sitemap_urls(domain@, contents@).subrange(
                0,
                i as int,
            ),
        decreases contents@.len() - i,
    {
        let mut url = domain.clone();
        url.append(contents[i].1.url.as_str());
        let ghost before = urls@;
        let ghost u = url@;
        urls.push(SiteMapUrl { url });
        assert(urls@.map_values(|u: SiteMapUrl| u.url@) =~= before.map_values(
            |u: SiteMapUrl| u.url@,
        ).push(u));
        assert(urls@.map_values(|u: SiteMapUrl| u.url@) =~= sitemap_urls(domain@, contents@).subrange(
            0,
            i + 1,
        ));
        i = i + 1;
    }
    assert(sitemap_urls(domain@, contents@).subrange(0, contents@.len() as int) =~= sitemap_urls(
        domain@,
        contents@,
    ));
    SiteMap { urls }
}

/// The text of the robots file of a site on `domain`.
pub open spec fn robots_text(domain: Seq<char>) -> Seq<char> {
    "User-Agent: *\nDisallow:\n\nSitemap: "@ + domain + "/sitemap.xml"@
}

/// What cleaning the project at `dir` removes: its configured output
/// directory, which must exist (`output_exists`); a clean of a project that is
/// already clean fails, so two cleans in a row are not both successful.
pub fn clean_project(dir: &String, config: &MandyConfig, output_exists: bool) -> (r: Result<
    String,
    MandyErr,
>)
    ensures
        output_exists ==> r is Ok && r->Ok_0@ == child_path(dir@, config.dist_dir@),
        !output_exists ==> r is Err && r->Err_0.details@ == no_dist_msg(
            child_path(dir@, config.dist_dir@),
        ),
{
    let target = output_dir_path(dir, config);
    if output_exists {
        Ok(target)
    } else {
        Err(framed_err("The directory \"", target.as_str(), "\" does not exist."))
    }
}

/// The sitemap and robots files of a site, with their paths.
#[derive(Debug)]
pub struct SeoFiles {
    pub sitemap_path: String,
    pub sitemap: String,
    pub robots_path: String,
    pub robots: String,
}

/// The segments of the output directory of the project at `dir`.
pub open spec fn dist_segments(dir: Seq<char>, c: MandyConfig) -> Seq<Seq<char>> {
    child_segments(dir, c.dist_dir@)
}

/// The message of a missing output directory.
pub open spec fn no_dist_msg(path: Seq<char>) -> Seq<char> {
    "The directory \""@ + path + "\" does not exist."@
}

/// The message of search-engine files that are already there.
pub open spec fn seo_exists_msg(sitemap: Seq<char>, robots: Seq<char>) -> Seq<char> {
    "The files \""@ + sitemap + "\" and \""@ + robots + "\" already exist."@
}

/// Prepares the search-engine files of the project at `dir` when the
/// configuration asks for them: a sitemap of every content item and a robots
/// file pointing to it, inside the output directory. `dist_exists`,
/// `sitemap_exists` and `robots_exists` say what is on disk; the output
/// directory must be there and neither file may be.
pub fn seo(
    dir: &String,
    config: &MandyConfig,
    contents: &Vec<(String, MandyContent)>,
    dist_exists: bool,
    sitemap_exists: bool,
    robots_exists: bool,
) -> (r: Result<Option<SeoFiles>, MandyErr>)
    ensures
        ({
            let d = dist_segments(dir@, *config);
            let sm = join_segments(d.push("sitemap.xml"@));
            let rb = join_segments(d.push("robots.txt"@));
            if !config.seo {
                r is Ok && r->Ok_0 is None
            } else if !dist_exists {
                r is Err && r->Err_0.details@ == no_dist_msg(join_segments(d))
            } else if sitemap_exists || robots_exists {
                r is Err && r->Err_0.details@ == seo_exists_msg(sm, rb)
            } else {
                r is Ok && r->Ok_0 is Some && r->Ok_0->Some_0.sitemap_path@ == sm
                    && r->Ok_0->Some_0.robots_path@ == rb && r->Ok_0->Some_0.sitemap@
                    == sitemap_head() + lines(
                    sitemap_urls(config.tl_domain@, contents@).map_values(
                        |u: Seq<char>| url_element(u),
                    ),
                ) + "</urlset>"@ && r->Ok_0->Some_0.robots@ == robots_text(config.tl_domain@)
            }
        }),
{
    if !config.seo {
        return Ok(None);
    }
    let d = child_items(dir, config.dist_dir.as_str());
    let mut sm_items = child_items(dir, config.dist_dir.as_str());
    let ghost before = sm_items@;
    sm_items.push(String::from_str("sitemap.xml"));
    assert(seg_views(sm_items@) =~= seg_views(before).push("sitemap.xml"@));
    let mut rb_items = child_items(dir, config.dist_dir.as_str());
    let ghost before = rb_items@;
    rb_items.push(String::from_str("robots.txt"));
    assert(seg_views(rb_items@) =~= seg_views(before).push("robots.txt"@));
    let dist_path = string_vec_to_path_buf(&d);
    let sitemap_path = string_vec_to_path_buf(&sm_items);
    let robots_path = string_vec_to_path_buf(&rb_items);
    if !dist_exists {
        return Err(framed_err("The directory \"", dist_path.as_str(), "\" does not exist."));
    }
    if sitemap_exists || robots_exists {
        return Err(
            framed_err2(
                "The files \"",
                sitemap_path.as_str(),
                "\" and \"",
                robots_path.as_str(),
                "\" already exist.",
            ),
        );
    }
    let map = build_sitemap(&config.tl_domain, contents);
    let sitemap = map.to_string();
    assert(url_elements(map.urls@) =~= sitemap_urls(config.tl_domain@, contents@).map_values(
        |u: Seq<char>| url_element(u),
    ));
    let mut robots = String::from_str("User-Agent: *\nDisallow:\n\nSitemap: ");
    robots.append(config.tl_domain.as_str());
    robots.append("/sitemap.xml");
    Ok(Some(SeoFiles { sitemap_path, sitemap, robots_path, robots }))
}

/// The stylesheet output of the project at `dir`: the `css` directory inside
/// the output directory, and the `index.css` file inside it.
pub fn stylesheet_paths(dir: &String, config: &MandyConfig) -> (r: (String, String))
    ensures
        r.0@ == join_segments(dist_segments(dir@, *config).push("css"@)),
        r.1@ == join_segments(dist_segments(dir@, *config).push("css"@).push("index.css"@)),
{
    let mut items = child_items(dir, config.dist_dir.as_str());
    let ghost before = items@;
    items.push(String::from_str("css"));
    assert(seg_views(items@) =~= seg_views(before).push("css"@));
    let css_dir = string_vec_to_path_buf(&items);
    let ghost before = items@;
    items.push(String::from_str("index.css"));
    assert(seg_views(items@) =~= seg_views(before).push("index.css"@));
    (css_dir, string_vec_to_path_buf(&items))
}

/// What an asset named in the configuration is on disk.
#[derive(Clone, Copy, Debug, PartialEq, Eq, Structural)]
pub enum EntryKind {
    Directory,
    File,
    Missing,
}

/// One copy of an asset into the output directory.
#[derive(Debug)]
pub struct CopyJob {
    pub from: String,
    pub to: String,
    pub is_dir: bool,
}

/// The message of a configured asset that is not there.
pub open spec fn asset_missing_msg(path: Seq<char>) -> Seq<char> {
    "The file at the path \""@ + path + "\" could not be found!"@
}

/// The message of an asset-copy flag without assets.
pub open spec fn no_assets_msg() -> Seq<char> {
    "The \"copy_files\" option was set to \"true\" but no entities were supplied."@
}

/// Whether the configuration names no asset: no list, or an empty one.
pub open spec fn no_assets(c: MandyConfig) -> bool {
    c.copy_entities is None || c.copy_entities->Some_0@.len() == 0
}

/// The assets that the configuration asks to copy, as paths inside `dir`.
pub open spec fn asset_paths(dir: Seq<char>, names: Seq<String>) -> Seq<Seq<char>> {
    names.map_values(|n: String| child_path(dir, n@))
}

/// Lists the paths of the assets that the configuration of the project at
/// `dir` asks to copy: none when the flag is off; an error when it is on and
/// names no asset.
pub fn copy_sources(dir: &String, config: &MandyConfig) -> (r: Result<Vec<String>, MandyErr>)
    ensures
        !config.copy_files ==> r is Ok && r->Ok_0@.len() == 0,
        config.copy_files && no_assets(*config) ==> r is Err && r->Err_0.details@
            == no_assets_msg(),
        config.copy_files && !no_assets(*config) ==> r is Ok && seg_views(r->Ok_0@)
            == asset_paths(dir@, config.copy_entities->Some_0@),
{
    if !config.copy_files {
        return Ok(Vec::new());
    }
    let names = match &config.copy_entities {
        Some(v) if v.len() > 0 => v,
        _ => {
            return Err(
                MandyErr::new(
                    "The \"copy_files\" option was set to \"true\" but no entities were supplied.",
                ),
            );
        },
    };
    let mut out: Vec<String> = Vec::new();
    let mut i: usize = 0;
    while i < names.len()
        invariant
            i <= names@.len(),
            seg_views(out@) == asset_paths(dir@, names@).subrange(0, i as int),
        decreases names@.len() - i,
    {
        let items = child_items(dir, names[i].as_str());
        let p = string_vec_to_path_buf(&items);
        let ghost before = out@;
        out.push(p);
        assert(seg_views(out@) =~= seg_views(before).push(p@));
        assert(seg_views(out@) =~= asset_paths(dir@, names@).subrange(0, i + 1));
        i = i + 1;
    }
    assert(asset_paths(dir@, names@).subrange(0, names@.len() as int) =~= asset_paths(
        dir@,
        names@,
    ));
    Ok(out)
}

/// The copy of the `i`-th configured asset named `name`, found on disk as
/// `kind`: a directory goes into the output directory, a file goes there
/// under its own name, a missing one is an error.
pub open spec fn copy_item(dir: Seq<char>, c: MandyConfig, name: Seq<char>, kind: EntryKind) -> Result<
    (Seq<char>, Seq<char>, bool),
    Seq<char>,
> {
    let from = child_path(dir, name);
    match kind {
        EntryKind::Directory => Ok((from, join_segments(dist_segments(dir, c)), true)),
        EntryKind::File => Ok((from, join_segments(dist_segments(dir, c).push(name)), false)),
        EntryKind::Missing => Err(asset_missing_msg(from)),
    }
}

/// Whether `jobs` holds, in order, the copy of each of the assets `names`
/// found on disk as `kinds`.
pub open spec fn copies_match(
    dir: Seq<char>,
    c: MandyConfig,
    names: Seq<String>,
    kinds: Seq<EntryKind>,
    jobs: Seq<CopyJob>,
) -> bool {
    &&& jobs.len() == names.len()
    &&& forall|i: int|
        0 <= i < names.len() ==> copy_item(dir, c, names[i]@, kinds[i]) == Ok::<_, Seq<char>>(
            (#[trigger] jobs[i].from@, jobs[i].to@, jobs[i].is_dir),
        )
}

/// Plans the copies of the assets `names`, where `kinds[i]` says what the
/// `i`-th of them is on disk; stops at the first one that is missing.
fn plan_copies(dir: &String, config: &MandyConfig, names: &Vec<String>, kinds: &Vec<EntryKind>) -> (r:
    Result<Vec<CopyJob>, MandyErr>)
    requires
        kinds@.len() == names@.len(),
    ensures
        r is Ok ==> copies_match(dir@, *config, names@, kinds@, r->Ok_0@),
        r is Err ==> exists|i: int|
            0 <= i < names@.len() && kinds@[i] == EntryKind::Missing && (forall|j: int|
                0 <= j < i ==> #[trigger] kinds@[j] != EntryKind::Missing)
                && r->Err_0.details@ == asset_missing_msg(child_path(dir@, names@[i]@)),
{
    let mut out: Vec<CopyJob> = Vec::new();
    let mut i: usize = 0;
    while i < names.len()
        invariant
            i <= names@.len(),
            kinds@.len() == names@.len(),
            out@.len() == i,
            forall|j: int| 0 <= j < i ==> #[trigger] kinds@[j] != EntryKind::Missing,
            forall|j: int|
                0 <= j < i ==> copy_item(dir@, *config, names@[j]@, kinds@[j]) == Ok::<
                    _,
                    Seq<char>,
                >((#[trigger] out@[j].from@, out@[j].to@, out@[j].is_dir)),
        decreases names@.len() - i,
    {
        let from_items = child_items(dir, names[i].as_str());
        let from = string_vec_to_path_buf(&from_items);
        let ghost before = out@;
        match kinds[i] {
            EntryKind::Directory => {
                let to_items = child_items(dir, config.dist_dir.as_str());
                out.push(CopyJob { from, to: string_vec_to_path_buf(&to_items), is_dir: true });
            },
            EntryKind::File => {
                let mut to_items = child_items(dir, config.dist_dir.as_str());
                let ghost b = to_items@;
                to_items.push(names[i].clone());
                assert(seg_views(to_items@) =~= seg_views(b).push(names@[i as int]@));
                out.push(CopyJob { from, to: string_vec_to_path_buf(&to_items), is_dir: false });
            },
            EntryKind::Missing => {
                assert(kinds@[i as int] == EntryKind::Missing);
                assert(from@ == child_path(dir@, names@[i as int]@));
                return Err(framed_err("The file at the path \"", from.as_str(), "\" could not be found!"));
            },
        }
        assert forall|j: int| 0 <= j < i implies copy_item(
            dir@,
            *config,
            names@[j]@,
            kinds@[j],
        ) == Ok::<_, Seq<char>>((#[trigger] out@[j].from@, out@[j].to@, out@[j].is_dir)) by {
            assert(out@[j] == before[j]);
        }
        i = i + 1;
    }
    assert forall|k: int| 0 <= k < names@.len() implies copy_item(
        dir@,
        *config,
        names@[k]@,
        kinds@[k],
    ) == Ok::<_, Seq<char>>((#[trigger] out@[k].from@, out@[k].to@, out@[k].is_dir)) by {}
    Ok(out)
}

/// Plans the copies of the assets that the configuration of the project at
/// `dir` names, where `kinds[i]` says what the `i`-th of them is on disk:
/// nothing when the flag is off, an error when it is on and names no asset
/// (no list or an empty one), and
/// otherwise one copy per asset, stopping at the first one that is missing.
pub fn copy_files(dir: &String, config: &MandyConfig, kinds: &Vec<EntryKind>) -> (r: Result<
    Vec<CopyJob>,
    MandyErr,
>)
    requires
        config.copy_files && config.copy_entities is Some ==> kinds@.len()
            == config.copy_entities->Some_0@.len(),
    ensures
        !config.copy_files ==> r is Ok && r->Ok_0@.len() == 0,
        config.copy_files && no_assets(*config) ==> r is Err && r->Err_0.details@
            == no_assets_msg(),
        config.copy_files && !no_assets(*config) ==> ({
            let names = config.copy_entities->Some_0@;
            &&& r is Ok ==> copies_match(dir@, *config, names, kinds@, r->Ok_0@)
            &&& r is Err ==> exists|i: int|
                0 <= i < names.len() && kinds@[i] == EntryKind::Missing && (forall|j: int|
                    0 <= j < i ==> #[trigger] kinds@[j] != EntryKind::Missing)
                    && r->Err_0.details@ == asset_missing_msg(child_path(dir@, names[i]@))
        }),
{
    if !config.copy_files {
        return Ok(Vec::new());
    }
    match &config.copy_entities {
        Some(names) if names.len() > 0 => plan_copies(dir, config, names, kinds),
        _ => Err(
            MandyErr::new(
                "The \"copy_files\" option was set to \"true\" but no entities were supplied.",
            ),
        ),
    }
}

} // verus!
