//! Path-segment algebra: paths are text whose segments are separated by `/`.
//!
//! A path is split into its segments; a leading `/` is kept as a root marker
//! segment and a leading `.` as a current-directory marker, while empty pieces
//! (repeated separators) and other lone `.` pieces are dropped. Joining puts
//! the separators back.
use vstd::prelude::*;
use vstd::string::*;
use crate::err::{framed_err, framed_err2, MandyErr};
use crate::gather::proper_prefix;
use crate::text::chars_of;

verus! {

/// The segment that stands for the root of an absolute path.
pub open spec fn root_marker() -> Seq<char> {
    seq!['/']
}

/// The segments that a piece of text between two separators contributes.
pub open spec fn kept(piece: Seq<char>) -> Seq<Seq<char>> {
    if piece.len() == 0 || piece == seq!['.'] {
        Seq::empty()
    } else {
        seq![piece]
    }
}

/// The segments of `rest`, where `cur` has already been read of the current piece.
pub open spec fn segments_after(rest: Seq<char>, cur: Seq<char>) -> Seq<Seq<char>>
    decreases rest.len(),
{
    if rest.len() == 0 {
        kept(cur)
    } else if rest[0] == '/' {
        kept(cur) + segments_after(rest.drop_first(), Seq::empty())
    } else {
        segments_after(rest.drop_first(), cur.push(rest[0]))
    }
}

/// The segment that stands for the current directory at the start of a
/// relative path.
pub open spec fn cur_marker() -> Seq<char> {
    seq!['.']
}

/// Whether the path `p` starts with the current directory: `.` alone or
/// followed by a separator.
pub open spec fn starts_cur(p: Seq<char>) -> bool {
    p.len() > 0 && p[0] == '.' && (p.len() == 1 || p[1] == '/')
}

/// The segments of the path `p`.
pub open spec fn segments_of(p: Seq<char>) -> Seq<Seq<char>> {
    if p.len() > 0 && p[0] == '/' {
        seq![root_marker()] + segments_after(p.drop_first(), Seq::empty())
    } else if starts_cur(p) {
        seq![cur_marker()] + segments_after(p.drop_first(), Seq::empty())
    } else {
        segments_after(p, Seq::empty())
    }
}

/// The segments `s` separated by `/`.
pub open spec fn joined(s: Seq<Seq<char>>) -> Seq<char>
    decreases s.len(),
{
    if s.len() == 0 {
        Seq::empty()
    } else if s.len() == 1 {
        s[0]
    } else {
        joined(s.drop_last()) + seq!['/'] + s.last()
    }
}

/// The path made of the segments `s`; a leading root marker gives an absolute path.
pub open spec fn join_segments(s: Seq<Seq<char>>) -> Seq<char> {
    if s.len() > 0 && s[0] == root_marker() {
        root_marker() + joined(s.drop_first())
    } else {
        joined(s)
    }
}

/// The views of a sequence of strings.
pub open spec fn seg_views(v: Seq<String>) -> Seq<Seq<char>> {
    v.map_values(|s: String| s@)
}

/// A segment as splitting produces it: non-empty, not `.`, without a separator.
pub open spec fn seg_ok(x: Seq<char>) -> bool {
    &&& x.len() > 0
    &&& x != seq!['.']
    &&& forall|k: int| 0 <= k < x.len() ==> x[k] != '/'
}

/// Whether `x` may only stand first: the root or the current-directory marker.
pub open spec fn lead_marker(x: Seq<char>) -> bool {
    x == root_marker() || x == cur_marker()
}

/// A sequence of segments as splitting produces it.
pub open spec fn wf_segments(s: Seq<Seq<char>>) -> bool {
    forall|i: int| 0 <= i < s.len() ==> (seg_ok(#[trigger] s[i]) || (i == 0 && lead_marker(s[i])))
}

proof fn lemma_after_sep(a: Seq<char>, b: Seq<char>, cur: Seq<char>)
    ensures
        segments_after(a + seq!['/'] + b, cur) == segments_after(a, cur) + segments_after(
            b,
            Seq::empty(),
        ),
    decreases a.len(),
{
    let whole = a + seq!['/'] + b;
    if a.len() == 0 {
        assert(whole =~= seq!['/'] + b);
        assert(whole.drop_first() =~= b);
    } else {
        assert(whole[0] == a[0]);
        assert(whole.drop_first() =~= a.drop_first() + seq!['/'] + b);
        if a[0] == '/' {
            lemma_after_sep(a.drop_first(), b, Seq::empty());
            assert(segments_after(whole, cur) =~= segments_after(a, cur) + segments_after(
                b,
                Seq::empty(),
            ));
        } else {
            lemma_after_sep(a.drop_first(), b, cur.push(a[0]));
        }
    }
}

proof fn lemma_after_word(x: Seq<char>, cur: Seq<char>)
    requires
        forall|k: int| 0 <= k < x.len() ==> x[k] != '/',
    ensures
        segments_after(x, cur) == kept(cur + x),
    decreases x.len(),
{
    if x.len() == 0 {
        assert(cur + x =~= cur);
    } else {
        lemma_after_word(x.drop_first(), cur.push(x[0]));
        assert(cur.push(x[0]) + x.drop_first() =~= cur + x);
    }
}

proof fn lemma_after_joined(t: Seq<Seq<char>>)
    requires
        forall|i: int| 0 <= i < t.len() ==> seg_ok(#[trigger] t[i]),
    ensures
        segments_after(joined(t), Seq::empty()) == t,
    decreases t.len(),
{
    if t.len() == 0 {
        assert(kept(Seq::<char>::empty()) =~= t);
    } else if t.len() == 1 {
        assert(seg_ok(t[0]));
        lemma_after_word(t[0], Seq::empty());
        assert(Seq::<char>::empty() + t[0] =~= t[0]);
        assert(kept(t[0]) =~= t);
    } else {
        let x = t.last();
        assert(seg_ok(t[t.len() - 1]));
        lemma_after_joined(t.drop_last());
        lemma_after_sep(joined(t.drop_last()), x, Seq::empty());
        lemma_after_word(x, Seq::empty());
        assert(Seq::<char>::empty() + x =~= x);
        assert(t.drop_last() + seq![x] =~= t);
    }
}

proof fn lemma_after_ok(rest: Seq<char>, cur: Seq<char>)
    requires
        forall|k: int| 0 <= k < cur.len() ==> cur[k] != '/',
    ensures
        forall|i: int|
            0 <= i < segments_after(rest, cur).len() ==> seg_ok(
                #[trigger] segments_after(rest, cur)[i],
            ),
    decreases rest.len(),
{
    lemma_kept_ok(cur);
    if rest.len() == 0 {
        assert(segments_after(rest, cur) == kept(cur));
    } else if rest[0] == '/' {
        lemma_after_ok(rest.drop_first(), Seq::empty());
        let a = kept(cur);
        let b = segments_after(rest.drop_first(), Seq::empty());
        assert(segments_after(rest, cur) == a + b);
        assert forall|i: int| 0 <= i < (a + b).len() implies seg_ok(#[trigger] (a + b)[i]) by {
            if i >= a.len() {
                assert((a + b)[i] == b[i - a.len()]);
            } else {
                assert((a + b)[i] == a[i]);
            }
        }
    } else {
        let c2 = cur.push(rest[0]);
        assert forall|k: int| 0 <= k < c2.len() implies c2[k] != '/' by {
            if k < cur.len() {
                assert(c2[k] == cur[k]);
            }
        }
        lemma_after_ok(rest.drop_first(), c2);
        assert(segments_after(rest, cur) == segments_after(rest.drop_first(), c2));
    }
}

proof fn lemma_kept_ok(cur: Seq<char>)
    requires
        forall|k: int| 0 <= k < cur.len() ==> cur[k] != '/',
    ensures
        forall|i: int| 0 <= i < kept(cur).len() ==> seg_ok(#[trigger] kept(cur)[i]),
{
}

/// Splitting always yields well-formed segments.
pub proof fn lemma_segments_wf(p: Seq<char>)
    ensures
        wf_segments(segments_of(p)),
{
    if (p.len() > 0 && p[0] == '/') || starts_cur(p) {
        lemma_after_ok(p.drop_first(), Seq::empty());
        let t = segments_after(p.drop_first(), Seq::empty());
        let m = if p[0] == '/' {
            root_marker()
        } else {
            cur_marker()
        };
        let s = seq![m] + t;
        assert(segments_of(p) == s);
        assert forall|i: int| 0 <= i < s.len() implies (seg_ok(#[trigger] s[i]) || (i == 0
            && lead_marker(s[i]))) by {
            if i > 0 {
                assert(s[i] == t[i - 1]);
            }
        }
    } else {
        lemma_after_ok(p, Seq::empty());
    }
}

/// Joining well-formed segments and splitting the result gives the segments back.
pub proof fn lemma_join_then_split(s: Seq<Seq<char>>)
    requires
        wf_segments(s),
    ensures
        segments_of(join_segments(s)) == s,
{
    if s.len() > 0 && s[0] == root_marker() {
        let t = s.drop_first();
        assert forall|i: int| 0 <= i < t.len() implies seg_ok(#[trigger] t[i]) by {
            assert(t[i] == s[i + 1]);
            assert(seg_ok(s[i + 1]) || (i + 1 == 0));
        }
        lemma_after_joined(t);
        let p = root_marker() + joined(t);
        assert(p[0] == '/');
        assert(p.drop_first() =~= joined(t));
        assert(seq![root_marker()] + t =~= s);
    } else if s.len() > 0 && s[0] == cur_marker() {
        let t = s.drop_first();
        assert forall|i: int| 0 <= i < t.len() implies seg_ok(#[trigger] t[i]) by {
            assert(t[i] == s[i + 1]);
            assert(seg_ok(s[i + 1]) || (i + 1 == 0));
        }
        lemma_after_joined(t);
        let p = joined(s);
        if s.len() == 1 {
            assert(p == cur_marker());
            assert(p.drop_first() =~= Seq::<char>::empty());
            assert(segments_after(p.drop_first(), Seq::empty()) =~= Seq::<Seq<char>>::empty());
            assert(seq![cur_marker()] + Seq::<Seq<char>>::empty() =~= s);
        } else {
            lemma_joined_front(s);
            assert(p =~= cur_marker() + seq!['/'] + joined(t));
            assert(p.drop_first() =~= Seq::<char>::empty() + seq!['/'] + joined(t));
            lemma_after_sep(Seq::empty(), joined(t), Seq::empty());
            assert(segments_after(Seq::<char>::empty(), Seq::empty()) =~= Seq::<
                Seq<char>,
            >::empty());
            assert(seq![cur_marker()] + t =~= s);
        }
    } else {
        assert forall|i: int| 0 <= i < s.len() implies seg_ok(#[trigger] s[i]) by {
            assert(seg_ok(s[i]) || (i == 0 && lead_marker(s[i])));
        }
        lemma_after_joined(s);
        if s.len() > 0 {
            lemma_joined_prefix(s);
            let p = joined(s);
            if s[0].len() == 1 {
                assert(s[0] != cur_marker());
                assert(s[0] =~= seq![s[0][0]]);
            } else {
                assert(p[1] == s[0][1]);
            }
            assert(!starts_cur(p));
        }
    }
}

proof fn lemma_joined_front(s: Seq<Seq<char>>)
    requires
        s.len() >= 2,
    ensures
        joined(s) == s[0] + seq!['/'] + joined(s.drop_first()),
    decreases s.len(),
{
    if s.len() == 2 {
        assert(s.drop_last().len() == 1);
        assert(s.drop_first().len() == 1);
        assert(joined(s.drop_last()) == s[0]);
        assert(joined(s.drop_first()) == s[1]);
        assert(joined(s) =~= s[0] + seq!['/'] + joined(s.drop_first()));
    } else {
        let d = s.drop_last();
        let t = s.drop_first();
        lemma_joined_front(d);
        assert(d[0] == s[0]);
        assert(d.drop_first() =~= t.drop_last());
        assert(t.last() == s.last());
        assert(joined(t) == joined(t.drop_last()) + seq!['/'] + t.last());
        assert(joined(s) == joined(d) + seq!['/'] + s.last());
        assert(joined(s) =~= s[0] + seq!['/'] + joined(t));
    }
}

proof fn lemma_joined_prefix(s: Seq<Seq<char>>)
    requires
        s.len() > 0,
    ensures
        joined(s).len() >= s[0].len(),
        forall|k: int| 0 <= k < s[0].len() ==> #[trigger] joined(s)[k] == s[0][k],
    decreases s.len(),
{
    if s.len() > 1 {
        lemma_joined_prefix(s.drop_last());
        let a = joined(s.drop_last());
        assert forall|k: int| 0 <= k < s[0].len() implies #[trigger] joined(s)[k] == s[0][k] by {
            assert(joined(s) == a + seq!['/'] + s.last());
            assert(joined(s)[k] == a[k]);
        }
    }
}

/// Splitting a path, joining its segments and splitting again gives the same
/// segments: the joined path is the same path as the one that was split.
pub proof fn lemma_split_join_identity(p: Seq<char>)
    ensures
        segments_of(join_segments(segments_of(p))) == segments_of(p),
{
    lemma_segments_wf(p);
    lemma_join_then_split(segments_of(p));
}

/// Splits a path into its segments.
pub fn split_path_buf(buf: &String) -> (r: Vec<String>)
    ensures
        seg_views(r@) == segments_of(buf@),
{
    let cs = chars_of(buf.as_str());
    let n = cs.len();
    let mut out: Vec<String> = Vec::new();
    let mut i: usize = 0;
    if n > 0 && (cs[0] == '/' || (cs[0] == '.' && (n == 1 || cs[1] == '/'))) {
        let lead = String::from_str(buf.as_str().substring_char(0, 1));
        assert(lead@ =~= seq![cs@[0]]);
        out.push(lead);
        i = 1;
        assert(cs@.subrange(1, n as int) =~= buf@.drop_first());
        assert(seg_views(out@) =~= seq![seq![cs@[0]]]);
        assert(seq![cs@[0]] == root_marker() || seq![cs@[0]] == cur_marker());
    } else {
        assert(cs@.subrange(0, n as int) =~= buf@);
        assert(seg_views(out@) =~= Seq::<Seq<char>>::empty());
    }
    let mut start: usize = i;
    assert(cs@.subrange(start as int, i as int) =~= Seq::<char>::empty());
    while i < n
        invariant
            start <= i <= n,
            n == cs@.len(),
            cs@ == buf@,
            seg_views(out@) + segments_after(
                cs@.subrange(i as int, n as int),
                cs@.subrange(start as int, i as int),
            ) == segments_of(buf@),
        decreases n - i,
    {
        let ghost rest = cs@.subrange(i as int, n as int);
        let ghost cur = cs@.subrange(start as int, i as int);
        assert(rest[0] == cs@[i as int]);
        assert(rest.drop_first() =~= cs@.subrange(i + 1, n as int));
        if cs[i] == '/' {
            let ghost before = seg_views(out@);
            push_piece(&mut out, buf, &cs, start, i);
            assert(seg_views(out@) == before + kept(cur));
            start = i + 1;
            i = i + 1;
            assert(cs@.subrange(start as int, i as int) =~= Seq::<char>::empty());
            assert(seg_views(out@) + segments_after(
                cs@.subrange(i as int, n as int),
                cs@.subrange(start as int, i as int),
            ) =~= segments_of(buf@));
        } else {
            assert(cur.push(cs@[i as int]) =~= cs@.subrange(start as int, i + 1));
            i = i + 1;
        }
    }
    push_piece(&mut out, buf, &cs, start, n);
    assert(seg_views(out@) =~= segments_of(buf@));
    out
}

/// Appends the segments that the text `buf[start..end]` contributes.
fn push_piece(out: &mut Vec<String>, buf: &String, cs: &Vec<char>, start: usize, end: usize)
    requires
        start <= end <= cs@.len(),
        cs@ == buf@,
    ensures
        seg_views(final(out)@) == seg_views(old(out)@) + kept(cs@.subrange(start as int, end as int)),
{
    let ghost piece = cs@.subrange(start as int, end as int);
    if end == start || (end == start + 1 && cs[start] == '.') {
        assert(piece.len() == 0 || piece =~= seq!['.']);
        assert(kept(piece) =~= Seq::<Seq<char>>::empty());
        assert(seg_views(out@) + kept(piece) =~= seg_views(out@));
    } else {
        assert(piece.len() != 0);
        assert(piece != seq!['.']) by {
            if piece =~= seq!['.'] {
                assert(piece[0] == cs@[start as int]);
            }
        }
        let s = String::from_str(buf.as_str().substring_char(start, end));
        out.push(s);
        assert(seg_views(out@) =~= seg_views(old(out)@) + kept(piece));
    }
}

/// Joins `v[from..to]` with `/` between consecutive items.
fn join_range(v: &Vec<String>, from: usize, to: usize) -> (r: String)
    requires
        from <= to <= v@.len(),
    ensures
        r@ == joined(seg_views(v@).subrange(from as int, to as int)),
{
    let mut out = String::new();
    let mut j: usize = from;
    proof {
        reveal_strlit("/");
    }
    assert("/"@ =~= seq!['/']);
    assert(seg_views(v@).subrange(from as int, from as int) =~= Seq::<Seq<char>>::empty());
    while j < to
        invariant
            from <= j <= to <= v@.len(),
            "/"@ == seq!['/'],
            out@ == joined(seg_views(v@).subrange(from as int, j as int)),
        decreases to - j,
    {
        let ghost next = seg_views(v@).subrange(from as int, j + 1);
        assert(next.drop_last() =~= seg_views(v@).subrange(from as int, j as int));
        assert(next.last() == v@[j as int]@);
        if j > from {
            out.append("/");
            assert(out@ =~= joined(next.drop_last()) + seq!['/']);
            out.append(v[j].as_str());
            assert(next.len() >= 2);
            assert(out@ =~= joined(next.drop_last()) + seq!['/'] + next.last());
        } else {
            assert(out@ =~= Seq::<char>::empty());
            out.append(v[j].as_str());
            assert(next.len() == 1);
            assert(out@ =~= next[0]);
        }
        j = j + 1;
    }
    out
}

/// Joins segments back into a path.
pub fn string_vec_to_path_buf(subject: &Vec<String>) -> (r: String)
    ensures
        r@ == join_segments(seg_views(subject@)),
{
    let ghost s = seg_views(subject@);
    if subject.len() > 0 && is_root(&subject[0]) {
        let mut out = String::from_str(subject[0].as_str());
        let rest = join_range(subject, 1, subject.len());
        out.append(rest.as_str());
        assert(s.drop_first() =~= s.subrange(1, s.len() as int));
        out
    } else {
        assert(s.subrange(0, s.len() as int) =~= s);
        join_range(subject, 0, subject.len())
    }
}

/// Whether `s` is the parent-directory segment `..`.
fn is_dotdot(s: &String) -> (r: bool)
    ensures
        r == (s@ == seq!['.', '.']),
{
    let cs = chars_of(s.as_str());
    let r = cs.len() == 2 && cs[0] == '.' && cs[1] == '.';
    assert(r ==> cs@ =~= seq!['.', '.']);
    r
}

/// Whether `s` is the current-directory marker.
fn is_dot(s: &String) -> (r: bool)
    ensures
        r == (s@ == cur_marker()),
{
    let cs = chars_of(s.as_str());
    let r = cs.len() == 1 && cs[0] == '.';
    assert(r ==> cs@ =~= cur_marker());
    r
}

/// Whether `s` is the root marker.
fn is_root(s: &String) -> (r: bool)
    ensures
        r == (s@ == root_marker()),
{
    let cs = chars_of(s.as_str());
    let r = cs.len() == 1 && cs[0] == '/';
    assert(r ==> cs@ =~= root_marker());
    r
}

/// Where a new segment goes relative to its anchor segment.
#[derive(Clone, Copy, Debug, PartialEq, Eq, Structural)]
pub enum Direction {
    Before,
    After,
}

/// The index of the first occurrence of `x` in `s`, or `s.len()` where there is none.
pub open spec fn first_index(s: Seq<Seq<char>>, x: Seq<char>) -> int
    decreases s.len(),
{
    if s.len() == 0 {
        0
    } else if s[0] == x {
        0
    } else {
        1 + first_index(s.drop_first(), x)
    }
}

/// What `first_index` means.
pub proof fn lemma_first_index(s: Seq<Seq<char>>, x: Seq<char>)
    ensures
        0 <= first_index(s, x) <= s.len(),
        forall|j: int| 0 <= j < first_index(s, x) ==> s[j] != x,
        first_index(s, x) < s.len() ==> s[first_index(s, x)] == x,
        first_index(s, x) < s.len() <==> s.contains(x),
    decreases s.len(),
{
    if s.len() > 0 && s[0] != x {
        let t = s.drop_first();
        lemma_first_index(t, x);
        assert forall|j: int| 0 <= j < first_index(s, x) implies s[j] != x by {
            if j > 0 {
                assert(s[j] == t[j - 1]);
            }
        }
        if s.contains(x) {
            let k = choose|k: int| 0 <= k < s.len() && s[k] == x;
            assert(t[k - 1] == x);
        }
        if t.contains(x) {
            let k = choose|k: int| 0 <= k < t.len() && t[k] == x;
            assert(s[k + 1] == x);
        }
    } else if s.len() > 0 {
        assert(s[0] == x);
    }
}

pub proof fn lemma_first_index_at(s: Seq<Seq<char>>, x: Seq<char>, i: int)
    requires
        0 <= i <= s.len(),
        forall|j: int| 0 <= j < i ==> s[j] != x,
        i == s.len() || s[i] == x,
    ensures
        first_index(s, x) == i,
    decreases i,
{
    if i > 0 {
        assert(s[0] != x);
        let t = s.drop_first();
        assert forall|j: int| 0 <= j < i - 1 implies t[j] != x by {
            assert(t[j] == s[j + 1]);
        }
        if i < s.len() {
            assert(t[i - 1] == s[i]);
        }
        lemma_first_index_at(t, x, i - 1);
    }
}

/// The index of the first item equal to `item`, or the length where there is none.
fn index_of(items: &Vec<String>, item: &String) -> (r: usize)
    ensures
        r == first_index(seg_views(items@), item@),
{
    let ghost s = seg_views(items@);
    let mut i: usize = 0;
    while i < items.len()
        invariant
            i <= items@.len(),
            s == seg_views(items@),
            forall|j: int| 0 <= j < i ==> s[j] != item@,
        decreases items@.len() - i,
    {
        if items[i] == *item {
            proof {
                lemma_first_index_at(s, item@, i as int);
            }
            return i;
        }
        i = i + 1;
    }
    proof {
        lemma_first_index_at(s, item@, i as int);
    }
    i
}

/// The segments `s` with `new` inserted next to the first occurrence of
/// `anchor`; none where `anchor` does not occur.
pub open spec fn insert_at_anchor(
    s: Seq<Seq<char>>,
    new: Seq<char>,
    anchor: Seq<char>,
    d: Direction,
) -> Option<Seq<Seq<char>>> {
    let i = first_index(s, anchor);
    if i < s.len() {
        Some(
            s.insert(
                match d {
                    Direction::Before => i,
                    Direction::After => i + 1,
                },
                new,
            ),
        )
    } else {
        None
    }
}

/// The segments `s` without the first occurrence of `x`.
pub open spec fn remove_first(s: Seq<Seq<char>>, x: Seq<char>) -> Seq<Seq<char>> {
    let i = first_index(s, x);
    if i < s.len() {
        s.remove(i)
    } else {
        s
    }
}

/// The segments `s` cut at the first occurrence of `anchor`: from the anchor on,
/// or, when `including`, from the segment after it, which fails where nothing
/// stands before the anchor. Where `anchor` does not occur, nothing is left.
pub open spec fn truncate_at(s: Seq<Seq<char>>, anchor: Seq<char>, including: bool) -> Option<
    Seq<Seq<char>>,
> {
    let i = first_index(s, anchor);
    if i >= s.len() {
        Some(Seq::empty())
    } else if !including {
        Some(s.subrange(i, s.len() as int))
    } else if i == 0 {
        None
    } else {
        Some(s.subrange(i + 1, s.len() as int))
    }
}

/// The message of a missing anchor segment.
pub open spec fn anchor_missing_msg(item: Seq<char>, path: Seq<char>) -> Seq<char> {
    "The item \""@ + item + "\" does not occur in the path \""@ + path + "\"."@
}

/// The message of an anchor segment with nothing before it.
pub open spec fn no_preceding_msg(item: Seq<char>, path: Seq<char>) -> Seq<char> {
    "The path \""@ + path + "\" has no segment before \""@ + item + "\" to remove."@
}

/// The message of a path without a file name.
pub open spec fn no_file_name_msg(path: Seq<char>) -> Seq<char> {
    "Could not extract filename from path \""@ + path + "\"!"@
}

/// The message of a path without a parent directory.
pub open spec fn no_parent_msg(path: Seq<char>) -> Seq<char> {
    "Could not retrieve parent directory of path \""@ + path + "\"."@
}

/// Inserting a segment that does not occur next to an anchor that does, and
/// then removing that segment, gives back the segments it started from.
pub proof fn lemma_insert_then_remove(
    s: Seq<Seq<char>>,
    x: Seq<char>,
    anchor: Seq<char>,
    d: Direction,
)
    requires
        !s.contains(x),
        s.contains(anchor),
    ensures
        insert_at_anchor(s, x, anchor, d) is Some,
        remove_first(insert_at_anchor(s, x, anchor, d)->Some_0, x) == s,
{
    lemma_first_index(s, anchor);
    let i = first_index(s, anchor);
    let pos = match d {
        Direction::Before => i,
        Direction::After => i + 1,
    };
    let t = s.insert(pos, x);
    assert forall|j: int| 0 <= j < pos implies t[j] != x by {
        assert(t[j] == s[j]);
    }
    lemma_first_index_at(t, x, pos);
    assert(t.remove(pos) =~= s);
}

/// Removing a segment that occurs exactly once and inserting it again before
/// the segment that followed it gives back the segments it started from, provided
/// that the following segment does not occur earlier.
pub proof fn lemma_remove_then_insert_before(s: Seq<Seq<char>>, i: int)
    requires
        0 <= i < s.len() - 1,
        forall|j: int| 0 <= j < s.len() && j != i ==> s[j] != s[i],
        forall|j: int| 0 <= j < i ==> #[trigger] s[j] != s[i + 1],
    ensures
        insert_at_anchor(remove_first(s, s[i]), s[i], s[i + 1], Direction::Before) == Some(s),
{
    let x = s[i];
    lemma_first_index_at(s, x, i);
    let r = s.remove(i);
    assert(r[i] == s[i + 1]);
    assert forall|j: int| 0 <= j < i implies r[j] != s[i + 1] by {
        assert(r[j] == s[j]);
    }
    lemma_first_index_at(r, s[i + 1], i);
    assert(r.insert(i, x) =~= s);
}

/// The path `buf` with the segment `entity` inserted next to the first
/// occurrence of `item`, or the message of its absence.
pub open spec fn inserted_path_of(
    buf: Seq<char>,
    entity: Seq<char>,
    item: Seq<char>,
    d: Direction,
) -> Result<Seq<char>, Seq<char>> {
    match insert_at_anchor(segments_of(buf), entity, item, d) {
        Some(t) => Ok(join_segments(t)),
        None => Err(anchor_missing_msg(item, buf)),
    }
}

/// Inserts `entity` as a segment of the path `buf` right before or after the
/// first occurrence of the segment `item`.
pub fn insert_entity_into_buf_at_item(
    buf: &String,
    entity: &String,
    item: &String,
    direction: &Direction,
) -> (r: Result<String, MandyErr>)
    ensures
        match inserted_path_of(buf@, entity@, item@, *direction) {
            Ok(p) => r is Ok && r->Ok_0@ == p,
            Err(m) => r is Err && r->Err_0.details@ == m,
        },
{
    let mut items = split_path_buf(buf);
    let i = index_of(&items, item);
    proof {
        lemma_first_index(seg_views(items@), item@);
    }
    if i >= items.len() {
        return Err(
            framed_err2(
                "The item \"",
                item.as_str(),
                "\" does not occur in the path \"",
                buf.as_str(),
                "\".",
            ),
        );
    }
    let pos = match direction {
        Direction::Before => i,
        Direction::After => i + 1,
    };
    let ghost before = items@;
    items.insert(pos, entity.clone());
    assert(seg_views(items@) =~= seg_views(before).insert(pos as int, entity@));
    Ok(string_vec_to_path_buf(&items))
}

/// Cuts `items` as `truncate_at` says.
fn truncate_segments(items: Vec<String>, item: &String, including: bool) -> (r: Option<Vec<String>>)
    ensures
        match truncate_at(seg_views(items@), item@, including) {
            Some(t) => r is Some && seg_views(r->Some_0@) == t,
            None => r is None,
        },
{
    let mut items = items;
    let ghost s = seg_views(items@);
    let i = index_of(&items, item);
    proof {
        lemma_first_index(s, item@);
    }
    let n = items.len();
    if i >= n {
        let none: Vec<String> = Vec::new();
        assert(seg_views(none@) =~= Seq::<Seq<char>>::empty());
        return Some(none);
    }
    let from = if !including {
        i
    } else if i == 0 {
        return None;
    } else {
        i + 1
    };
    let tail = items.split_off(from);
    assert(seg_views(tail@) =~= s.subrange(from as int, n as int));
    Some(tail)
}

/// Cuts the path `buf` at the first occurrence of the segment `item`: keeps the
/// segments from `item` on, or, when `including`, those after it.
pub fn split_buf_at_item(buf: &String, item: &String, including: &bool) -> (r: Result<
    String,
    MandyErr,
>)
    ensures
        match truncate_at(segments_of(buf@), item@, *including) {
            Some(t) => r is Ok && r->Ok_0@ == join_segments(t),
            None => r is Err && r->Err_0.details@ == no_preceding_msg(item@, buf@),
        },
{
    let items = split_path_buf(buf);
    match truncate_segments(items, item, *including) {
        Some(t) => Ok(string_vec_to_path_buf(&t)),
        None => Err(
            framed_err2(
                "The path \"",
                buf.as_str(),
                "\" has no segment before \"",
                item.as_str(),
                "\" to remove.",
            ),
        ),
    }
}

/// The segments `s` as a web path: joined with `/` behind a leading `/`.
pub open spec fn web_path(s: Seq<Seq<char>>) -> Seq<char> {
    seq!['/'] + joined(s)
}

/// Turns a path into a web path: its segments joined with `/`, behind one leading `/`.
pub fn make_web_friendly(path: &String) -> (r: String)
    ensures
        r@ == web_path(segments_of(path@)),
{
    let items = split_path_buf(path);
    let rest = join_range(&items, 0, items.len());
    assert(seg_views(items@).subrange(0, items@.len() as int) =~= seg_views(items@));
    let mut out = String::from_str("/");
    proof {
        reveal_strlit("/");
    }
    assert("/"@ =~= seq!['/']);
    out.append(rest.as_str());
    out
}

/// The index of the last `.` of `name`, or -1 where there is none.
pub open spec fn last_dot(name: Seq<char>) -> int
    decreases name.len(),
{
    if name.len() == 0 {
        -1
    } else if name.last() == '.' {
        name.len() - 1
    } else {
        last_dot(name.drop_last())
    }
}

/// The stem of a file name: what stands before its last `.`, unless that `.`
/// is the first character or there is none.
pub open spec fn stem_of(name: Seq<char>) -> Seq<char> {
    let d = last_dot(name);
    if d <= 0 {
        name
    } else {
        name.subrange(0, d)
    }
}

/// The extension of a file name: what stands after its last `.`, unless that
/// `.` is the first character or there is none.
pub open spec fn extension_of(name: Seq<char>) -> Option<Seq<char>> {
    let d = last_dot(name);
    if d <= 0 {
        None
    } else {
        Some(name.subrange(d + 1, name.len() as int))
    }
}

/// The file name of a path with segments `s`: its last segment, unless that is
/// the root marker, the current-directory marker or `..`.
pub open spec fn file_name_of(s: Seq<Seq<char>>) -> Option<Seq<char>> {
    if s.len() == 0 || s.last() == root_marker() || s.last() == cur_marker() || s.last() == seq![
        '.',
        '.',
    ] {
        None
    } else {
        Some(s.last())
    }
}

proof fn lemma_last_dot_range(name: Seq<char>)
    ensures
        -1 <= last_dot(name) < name.len(),
    decreases name.len(),
{
    if name.len() > 0 && name.last() != '.' {
        lemma_last_dot_range(name.drop_last());
    }
}

/// The index of the last `.` of `cs`.
fn last_dot_index(cs: &Vec<char>) -> (r: Option<usize>)
    ensures
        match r {
            Some(d) => d as int == last_dot(cs@),
            None => last_dot(cs@) == -1,
        },
{
    let mut i: usize = cs.len();
    assert(cs@.subrange(0, i as int) =~= cs@);
    while i > 0
        invariant
            i <= cs@.len(),
            last_dot(cs@) == last_dot(cs@.subrange(0, i as int)),
        decreases i,
    {
        if cs[i - 1] == '.' {
            return Some(i - 1);
        }
        assert(cs@.subrange(0, i as int).drop_last() =~= cs@.subrange(0, i - 1));
        i = i - 1;
    }
    None
}

/// The stem of the file name `name`.
fn stem_string(name: &String) -> (r: String)
    ensures
        r@ == stem_of(name@),
{
    let cs = chars_of(name.as_str());
    proof {
        lemma_last_dot_range(name@);
    }
    match last_dot_index(&cs) {
        Some(d) => {
            if d > 0 {
                String::from_str(name.as_str().substring_char(0, d))
            } else {
                name.clone()
            }
        },
        None => name.clone(),
    }
}

/// The extension of the file name `name`.
pub fn extension_string(name: &String) -> (r: Option<String>)
    ensures
        match extension_of(name@) {
            Some(e) => r is Some && r->Some_0@ == e,
            None => r is None,
        },
{
    let cs = chars_of(name.as_str());
    proof {
        lemma_last_dot_range(name@);
    }
    match last_dot_index(&cs) {
        Some(d) => {
            assert(cs@ == name@);
            assert(d < cs@.len());
            if d > 0 {
                let n = cs.len();
                let after: usize = d + 1;
                Some(String::from_str(name.as_str().substring_char(after, n)))
            } else {
                None
            }
        },
        None => None,
    }
}

/// Extracts the stem of the file name of the path `subject`.
pub fn extract_stem(subject: &String) -> (r: Result<String, MandyErr>)
    ensures
        match file_name_of(segments_of(subject@)) {
            Some(n) => r is Ok && r->Ok_0@ == stem_of(n),
            None => r is Err && r->Err_0.details@ == no_file_name_msg(subject@),
        },
{
    let items = split_path_buf(subject);
    let n = items.len();
    if n == 0 || is_root(&items[n - 1]) || is_dot(&items[n - 1]) || is_dotdot(&items[n - 1]) {
        return Err(framed_err("Could not extract filename from path \"", subject.as_str(), "\"!"));
    }
    Ok(stem_string(&items[n - 1]))
}

/// The parent directory and the file stem of a path.
#[derive(Debug)]
pub struct PathInfo {
    pub path: String,
    pub file: String,
}

/// Splits the path `subject` into its parent directory and the stem of its file name.
pub fn get_path_from_buf(subject: &String) -> (r: Result<PathInfo, MandyErr>)
    ensures
        ({
            let s = segments_of(subject@);
            if s.len() == 0 || s.last() == root_marker() {
                r is Err && r->Err_0.details@ == no_parent_msg(subject@)
            } else if s.last() == seq!['.', '.'] || s.last() == cur_marker() {
                r is Err && r->Err_0.details@ == no_file_name_msg(subject@)
            } else {
                r is Ok && r->Ok_0.path@ == join_segments(s.drop_last()) && r->Ok_0.file@
                    == stem_of(s.last())
            }
        }),
{
    let mut items = split_path_buf(subject);
    let n = items.len();
    if n == 0 || is_root(&items[n - 1]) {
        return Err(
            framed_err("Could not retrieve parent directory of path \"", subject.as_str(), "\"."),
        );
    }
    if is_dotdot(&items[n - 1]) || is_dot(&items[n - 1]) {
        return Err(framed_err("Could not extract filename from path \"", subject.as_str(), "\"!"));
    }
    let file = stem_string(&items[n - 1]);
    let ghost s = items@;
    items.pop();
    assert(seg_views(items@) =~= seg_views(s).drop_last());
    let path = string_vec_to_path_buf(&items);
    Ok(PathInfo { path, file })
}

/// The on-disk path of a rendered page and the public link to it.
#[derive(Debug)]
pub struct ComplexPath {
    pub on_disk_html_url: String,
    pub web_link: String,
}

/// The stem that marks a directory's own page.
pub open spec fn index_stem() -> Seq<char> {
    "index"@
}

/// The file name of every rendered page.
pub open spec fn index_html() -> Seq<char> {
    "index.html"@
}

/// The segments of the page rendered from a file with segments `s` and file
/// name `name`: an `index` file becomes its directory's `index.html`; any other
/// becomes `index.html` in a directory named after its stem.
pub open spec fn html_segments(s: Seq<Seq<char>>, name: Seq<char>) -> Seq<Seq<char>> {
    let dir = s.drop_last();
    if stem_of(name) == index_stem() {
        dir.push(index_html())
    } else {
        dir.push(stem_of(name)).push(index_html())
    }
}

/// The public link of a page whose segments below the output directory are
/// `t`: the web path of its directory, with a trailing `/`.
pub open spec fn dir_link(t: Seq<Seq<char>>) -> Seq<char> {
    let d = if t.len() > 0 {
        t.drop_last()
    } else {
        t
    };
    if d.len() == 0 {
        seq!['/']
    } else {
        web_path(d) + seq!['/']
    }
}

/// Builds `dir_link` of `t`.
fn dir_link_string(t: &Vec<String>) -> (r: String)
    ensures
        r@ == dir_link(seg_views(t@)),
{
    let n = t.len();
    let m: usize = if n > 0 {
        n - 1
    } else {
        0
    };
    let ghost s = seg_views(t@);
    let ghost d = if s.len() > 0 {
        s.drop_last()
    } else {
        s
    };
    assert(s.subrange(0, m as int) =~= d);
    let mut out = String::from_str("/");
    proof {
        reveal_strlit("/");
    }
    assert("/"@ =~= seq!['/']);
    if m > 0 {
        let mid = join_range(t, 0, m);
        out.append(mid.as_str());
        out.append("/");
    }
    out
}

/// The on-disk path of the page rendered from the output path `path` of a
/// content file, and its public link below the output directory `dist`.
pub open spec fn complex_path_of(path: Seq<char>, dist: Seq<char>) -> Result<
    (Seq<char>, Seq<char>),
    Seq<char>,
> {
    match file_name_of(segments_of(path)) {
        None => Err(no_file_name_msg(path)),
        Some(name) => {
            let h = html_segments(segments_of(path), name);
            match truncate_at(h, dist, true) {
                None => Err(no_preceding_msg(dist, join_segments(h))),
                Some(t) => Ok((join_segments(h), dir_link(t))),
            }
        },
    }
}

/// Derives, from the output path of a content file, the on-disk path of its
/// rendered page and its public link, which is the page's directory below the
/// output directory `dist_dir`.
pub fn produce_complex_path(path: &String, dist_dir: &String) -> (r: Result<ComplexPath, MandyErr>)
    ensures
        match complex_path_of(path@, dist_dir@) {
            Ok((d, l)) => r is Ok && r->Ok_0.on_disk_html_url@ == d && r->Ok_0.web_link@ == l,
            Err(m) => r is Err && r->Err_0.details@ == m,
        },
{
    let mut items = split_path_buf(path);
    let n = items.len();
    if n == 0 || is_root(&items[n - 1]) || is_dot(&items[n - 1]) || is_dotdot(&items[n - 1]) {
        return Err(framed_err("Could not extract filename from path \"", path.as_str(), "\"!"));
    }
    let ghost s = seg_views(items@);
    let stem = stem_string(&items[n - 1]);
    items.pop();
    assert(seg_views(items@) =~= s.drop_last());
    let index = String::from_str("index");
    if stem == index {
    } else {
        items.push(stem);
    }
    items.push(String::from_str("index.html"));
    assert(seg_views(items@) =~= html_segments(s, s.last()));
    let on_disk = string_vec_to_path_buf(&items);
    match truncate_segments(items, dist_dir, true) {
        Some(t) => Ok(ComplexPath { on_disk_html_url: on_disk, web_link: dir_link_string(&t) }),
        None => Err(
            framed_err2(
                "The path \"",
                on_disk.as_str(),
                "\" has no segment before \"",
                dist_dir.as_str(),
                "\" to remove.",
            ),
        ),
    }
}


/// The message of a source file outside the project directory.
pub open spec fn outside_root_msg(path: Seq<char>, dir: Seq<char>) -> Seq<char> {
    "The path \""@ + path + "\" is not inside the project directory \""@ + dir + "\"."@
}

/// The segments of the output path of the source file `path` of the project
/// at `dir`: the output directory `dist` inserted right after the project's
/// own segments.
pub open spec fn output_segments_of(path: Seq<char>, dir: Seq<char>, dist: Seq<char>) -> Result<
    Seq<Seq<char>>,
    Seq<char>,
> {
    let s = segments_of(path);
    let d = segments_of(dir);
    if d.len() < s.len() && s.subrange(0, d.len() as int) == d {
        Ok(s.insert(d.len() as int, dist))
    } else {
        Err(outside_root_msg(path, dir))
    }
}

/// The on-disk path of the page rendered from the source file `path` of the
/// project at `dir`, and its public link: the page's directory below the
/// output directory `dist`.
pub open spec fn route_of(path: Seq<char>, dir: Seq<char>, dist: Seq<char>) -> Result<
    (Seq<char>, Seq<char>),
    Seq<char>,
> {
    match output_segments_of(path, dir, dist) {
        Err(m) => Err(m),
        Ok(out) => match file_name_of(out) {
            None => Err(no_file_name_msg(path)),
            Some(name) => {
                let h = html_segments(out, name);
                Ok(
                    (
                        join_segments(h),
                        dir_link(h.subrange(segments_of(dir).len() as int + 1, h.len() as int)),
                    ),
                )
            },
        },
    }
}

/// Routes the source file `path` of the project at `dir`: its page goes
/// below the output directory `dist`, inserted right after the project's own
/// segments, and its public link is the page's directory below `dist`.
pub fn route_content(path: &String, dir: &String, dist: &String) -> (r: Result<
    ComplexPath,
    MandyErr,
>)
    ensures
        match route_of(path@, dir@, dist@) {
            Ok((d, l)) => r is Ok && r->Ok_0.on_disk_html_url@ == d && r->Ok_0.web_link@ == l,
            Err(m) => r is Err && r->Err_0.details@ == m,
        },
{
    let mut items = split_path_buf(path);
    let root = split_path_buf(dir);
    if !proper_prefix(&items, &root) {
        return Err(
            framed_err2(
                "The path \"",
                path.as_str(),
                "\" is not inside the project directory \"",
                dir.as_str(),
                "\".",
            ),
        );
    }
    let ghost s = seg_views(items@);
    let ghost dl = root@.len() as int;
    let ghost out = s.insert(dl, dist@);
    let n = items.len();
    assert(out.last() == s.last());
    if is_root(&items[n - 1]) || is_dot(&items[n - 1]) || is_dotdot(&items[n - 1]) {
        return Err(framed_err("Could not extract filename from path \"", path.as_str(), "\"!"));
    }
    let stem = stem_string(&items[n - 1]);
    items.pop();
    items.insert(root.len(), dist.clone());
    assert(seg_views(items@) =~= out.drop_last());
    let index = String::from_str("index");
    if stem == index {
    } else {
        items.push(stem);
    }
    items.push(String::from_str("index.html"));
    let ghost h = html_segments(out, out.last());
    assert(seg_views(items@) =~= h);
    let on_disk = string_vec_to_path_buf(&items);
    let tail = items.split_off(root.len() + 1);
    assert(seg_views(tail@) =~= h.subrange(dl + 1, h.len() as int));
    Ok(ComplexPath { on_disk_html_url: on_disk, web_link: dir_link_string(&tail) })
}

} // verus!
