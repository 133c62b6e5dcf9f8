//! Properties that relate several functions of the library.
use vstd::prelude::*;
use crate::compile::{
    first_true, jobs_view, layout_index, layout_not_found_msg, output_exists_msg, page_at,
    page_item, PageJob,
};
use crate::gather::{
    all_ok, child_path, child_segments, config_source_of, lemma_all_ok_err, loop_of,
    no_loop_dirs_msg, present, unreadable_msg, ContentView,
};
use crate::paths::{
    lead_marker, lemma_join_then_split, lemma_segments_wf, seg_ok, segments_of,
    wf_segments,
};
use crate::units::{MandyConfig, SiteInfo, TreeEntry, UserDataFileType};

verus! {

/// A configuration whose loop-content flag is set but which names no
/// loop-content directory makes finding loop content fail with the
/// inconsistency error, whatever the project holds.
pub proof fn lemma_loop_flag_needs_dirs(es: Seq<TreeEntry>, dir: Seq<char>, c: MandyConfig)
    requires
        c.has_loop_content,
        c.loop_content_dirs is None,
    ensures
        loop_of(es, dir, c) == Err::<Option<Seq<(Seq<char>, Seq<ContentView>)>>, Seq<char>>(
            no_loop_dirs_msg(),
        ),
{
}

/// Where both `config.json` and `config.yml` exist, the JSON file is the one
/// chosen: its path and format, whatever the YAML file holds.
pub proof fn lemma_json_config_first(es: Seq<TreeEntry>, dir: Seq<char>)
    requires
        present(es, child_segments(dir, "config.json"@)),
        present(es, child_segments(dir, "config.yml"@)),
    ensures
        config_source_of(es, dir) is Ok ==> config_source_of(es, dir)->Ok_0.0 == child_path(
            dir,
            "config.json"@,
        ) && config_source_of(es, dir)->Ok_0.1 == UserDataFileType::JSON,
        config_source_of(es, dir) is Err ==> config_source_of(es, dir)->Err_0
            == unreadable_msg(child_path(dir, "config.json"@)),
{
}

proof fn lemma_all_ok_prefix<V>(k: nat, f: spec_fn(int) -> Result<V, Seq<char>>)
    requires
        forall|j: int| 0 <= j < k ==> #[trigger] f(j) is Ok,
    ensures
        all_ok(k, f) is Ok,
    decreases k,
{
    if k > 0 {
        lemma_all_ok_prefix((k - 1) as nat, f);
    }
}

/// Rendering stops with a layout-not-found error naming the requested layout
/// at the first content item whose layout no loaded layout has.
pub proof fn lemma_unknown_layout_fails(info: SiteInfo, k: int)
    requires
        0 <= k < info.content_files@.len(),
        layout_index(info.layouts@, info.content_files@[k].1.layout@) >= info.layouts@.len(),
        forall|j: int|
            0 <= j < k ==> #[trigger] layout_index(info.layouts@, info.content_files@[j].1.layout@)
                < info.layouts@.len(),
    ensures
        all_ok(info.content_files@.len() as nat, page_at(info)) == Err::<
            Seq<(Seq<char>, Seq<char>)>,
            Seq<char>,
        >(layout_not_found_msg(info.content_files@[k].1.layout@)),
{
    let f = page_at(info);
    assert forall|j: int| 0 <= j < k implies #[trigger] f(j) is Ok by {
        assert(f(j) == page_item(info, j));
    }
    lemma_all_ok_prefix(k as nat, f);
    assert(f(k) == page_item(info, k));
    assert(all_ok((k + 1) as nat, f) is Err);
    lemma_all_ok_err((k + 1) as nat, info.content_files@.len() as nat, f);
}

/// Two compiles of the same unchanged project plan the same pages. Once the
/// first has written them all, the second finds every output taken, so the
/// check that guards writing fails at its first page, which the first compile
/// wrote, and nothing is written over.
pub proof fn lemma_second_compile_refused(
    info: SiteInfo,
    first: Seq<PageJob>,
    second: Seq<PageJob>,
    taken: Seq<bool>,
)
    requires
        all_ok(info.content_files@.len() as nat, page_at(info)) == Ok::<
            Seq<(Seq<char>, Seq<char>)>,
            Seq<char>,
        >(jobs_view(first)),
        all_ok(info.content_files@.len() as nat, page_at(info)) == Ok::<
            Seq<(Seq<char>, Seq<char>)>,
            Seq<char>,
        >(jobs_view(second)),
        second.len() > 0,
        taken.len() == second.len(),
        forall|k: int| 0 <= k < taken.len() ==> #[trigger] taken[k],
    ensures
        jobs_view(second) == jobs_view(first),
        exists|k: int| 0 <= k < taken.len() && taken[k],
        first_true(taken) == 0,
        output_exists_msg(second[first_true(taken)].output@) == output_exists_msg(
            first[0].output@,
        ),
{
    assert(taken[0]);
    assert(first_true(taken) == 0);
    assert(jobs_view(second)[0] == (second[0].output@, second[0].template@));
    assert(jobs_view(first).len() == first.len());
    assert(jobs_view(first)[0] == (first[0].output@, first[0].template@));
}

/// The directory that a clean removes is the configured output directory,
/// right inside the project: its segments are the project's and one more.
pub proof fn lemma_clean_target_inside(dir: Seq<char>, dist: Seq<char>)
    requires
        seg_ok(dist),
    ensures
        segments_of(child_path(dir, dist)) == segments_of(dir).push(dist),
{
    lemma_segments_wf(dir);
    let s = segments_of(dir).push(dist);
    assert forall|i: int| 0 <= i < s.len() implies (seg_ok(#[trigger] s[i]) || (i == 0
        && lead_marker(s[i]))) by {
        if i < s.len() - 1 {
            assert(s[i] == segments_of(dir)[i]);
        }
    }
    assert(wf_segments(s));
    lemma_join_then_split(s);
}

} // verus!
