//! Lexical normalisation of relative paths, and the check that keeps every
//! path under the store root. Nothing here looks at the filesystem.
use vstd::prelude::*;
use crate::error::AppError;
use crate::text::{chars_of, span_is};

verus! {

/// `p` cut at each `/`: `"a//b"` has the segments `a`, the empty one, and `b`.
pub open spec fn segments(p: Seq<char>) -> Seq<Seq<char>>
    decreases p.len(),
{
    if p.len() == 0 {
        seq![Seq::empty()]
    } else {
        let s = segments(p.drop_last());
        if p.last() == '/' {
            s.push(Seq::empty())
        } else {
            s.update(s.len() - 1, s.last().push(p.last()))
        }
    }
}

/// One segment applied to the directories walked so far: empty and `.`
/// segments stay put, `..` goes up one level, and going up from the root
/// escapes (`None`).
pub open spec fn step(walked: Option<Seq<Seq<char>>>, seg: Seq<char>) -> Option<Seq<Seq<char>>> {
    match walked {
        None => None,
        Some(st) => if seg.len() == 0 || seg == "."@ {
            Some(st)
        } else if seg == ".."@ {
            if st.len() == 0 {
                None
            } else {
                Some(st.drop_last())
            }
        } else {
            Some(st.push(seg))
        },
    }
}

pub open spec fn walk(ss: Seq<Seq<char>>) -> Option<Seq<Seq<char>>>
    decreases ss.len(),
{
    if ss.len() == 0 {
        Some(Seq::empty())
    } else {
        step(walk(ss.drop_last()), ss.last())
    }
}

/// The segments of `p` once `.` and `..` are resolved, or `None` where a `..`
/// climbs above the root.
pub open spec fn normalized(p: Seq<char>) -> Option<Seq<Seq<char>>> {
    walk(segments(p))
}

pub open spec fn escapes(p: Seq<char>) -> bool {
    normalized(p) is None
}

pub open spec fn is_absolute(p: Seq<char>) -> bool {
    p.len() > 0 && p[0] == '/'
}

/// A path that stays under the root it is taken from.
pub open spec fn confined(p: Seq<char>) -> bool {
    !escapes(p) && !is_absolute(p)
}

/// Segments put back together with `/`.
pub open spec fn join(ss: Seq<Seq<char>>) -> Seq<char>
    decreases ss.len(),
{
    if ss.len() == 0 {
        Seq::empty()
    } else if ss.len() == 1 {
        ss[0]
    } else {
        join(ss.drop_last()) + "/"@ + ss.last()
    }
}

pub proof fn lemma_segments_nonempty(p: Seq<char>)
    ensures
        segments(p).len() >= 1,
    decreases p.len(),
{
    if p.len() > 0 {
        lemma_segments_nonempty(p.drop_last());
    }
}

/// The pieces of `p` that the spans mark out.
pub open spec fn spans_view(p: Seq<char>, spans: Seq<(usize, usize)>) -> Seq<Seq<char>> {
    spans.map_values(|r: (usize, usize)| p.subrange(r.0 as int, r.1 as int))
}

pub open spec fn spans_in(p: Seq<char>, spans: Seq<(usize, usize)>) -> bool {
    forall|j: int| 0 <= j < spans.len() ==> (#[trigger] spans[j]).0 <= spans[j].1 <= p.len()
}

fn apply_segment(p: &Vec<char>, lo: usize, hi: usize, walked: &mut Vec<(usize, usize)>) -> (ok: bool)
    requires
        lo <= hi <= p@.len(),
        spans_in(p@, old(walked)@),
    ensures
        spans_in(p@, final(walked)@),
        ok ==> step(Some(spans_view(p@, old(walked)@)), p@.subrange(lo as int, hi as int))
            == Some(spans_view(p@, final(walked)@)),
        !ok ==> step(Some(spans_view(p@, old(walked)@)), p@.subrange(lo as int, hi as int)) is None,
{
    let ghost before = spans_view(p@, walked@);
    if hi == lo || span_is(p, lo, hi, ".") {
        true
    } else if span_is(p, lo, hi, "..") {
        if walked.len() == 0 {
            false
        } else {
            walked.pop();
            assert(spans_view(p@, walked@) =~= before.drop_last());
            true
        }
    } else {
        walked.push((lo, hi));
        assert(spans_view(p@, walked@) =~= before.push(p@.subrange(lo as int, hi as int)));
        true
    }
}

/// The normalised segments of `p`, as spans of it; `None` where `p` escapes.
fn normalize(p: &Vec<char>) -> (r: Option<Vec<(usize, usize)>>)
    ensures
        r is Some == !escapes(p@),
        r is Some ==> spans_in(p@, r->0@) && normalized(p@) == Some(spans_view(p@, r->0@)),
{
    let n = p.len();
    let mut walked: Vec<(usize, usize)> = Vec::new();
    let mut ok = true;
    let mut start: usize = 0;
    let mut i: usize = 0;
    proof {
        assert(p@.subrange(0, 0) =~= Seq::<char>::empty());
        assert(spans_view(p@, walked@) =~= Seq::<Seq<char>>::empty());
    }
    while i < n
        invariant
            n == p@.len(),
            start <= i <= n,
            spans_in(p@, walked@),
            segments(p@.subrange(0, i as int)).len() >= 1,
            segments(p@.subrange(0, i as int)).last() == p@.subrange(start as int, i as int),
            ok ==> walk(segments(p@.subrange(0, i as int)).drop_last()) == Some(spans_view(p@, walked@)),
            !ok ==> walk(segments(p@.subrange(0, i as int)).drop_last()) is None,
        decreases n - i,
    {
        let ghost pre = p@.subrange(0, i as int);
        let ghost next = p@.subrange(0, i + 1);
        let ghost s = segments(pre);
        assert(next.drop_last() =~= pre);
        assert(next.last() == p@[i as int]);
        if p[i] == '/' {
            if ok {
                ok = apply_segment(p, start, i, &mut walked);
            }
            proof {
                assert(segments(next) == s.push(Seq::empty()));
                assert(segments(next).drop_last() =~= s);
                assert(s =~= s.drop_last().push(s.last()));
            }
            start = i + 1;
            assert(p@.subrange(start as int, i + 1) =~= Seq::<char>::empty());
        } else {
            proof {
                assert(segments(next) == s.update(s.len() - 1, s.last().push(p@[i as int])));
                assert(segments(next).drop_last() =~= s.drop_last());
                assert(p@.subrange(start as int, i + 1) =~= p@.subrange(start as int, i as int).push(p@[i as int]));
            }
        }
        i += 1;
    }
    proof {
        let s = segments(p@.subrange(0, n as int));
        assert(p@.subrange(0, n as int) =~= p@);
        assert(s =~= s.drop_last().push(s.last()));
    }
    if ok {
        ok = apply_segment(p, start, n, &mut walked);
    }
    if ok {
        Some(walked)
    } else {
        None
    }
}

/// Accepts `resolved` when it is relative and its `..` segments never climb
/// above the store root; otherwise refuses it, naming `key`, the key as the
/// caller gave it. The answer is the same whether or not the target exists.
pub fn validate_path(key: &str, resolved: &str) -> (r: Result<(), AppError>)
    ensures
        r is Ok == confined(resolved@),
        r is Err ==> r->Err_0 is PathTraversal && r->Err_0->PathTraversal_0@ == key@,
{
    let p = chars_of(resolved);
    let absolute = p.len() > 0 && p[0] == '/';
    let inside = normalize(&p);
    if absolute || inside.is_none() {
        Err(AppError::PathTraversal(String::from_str(key)))
    } else {
        Ok(())
    }
}

/// The first `k` pieces that `spans` marks out in `p`, joined with `/`.
fn join_spans(p: &str, spans: &Vec<(usize, usize)>, k: usize) -> (r: String)
    requires
        spans_in(p@, spans@),
        k <= spans@.len(),
    ensures
        r@ == join(spans_view(p@, spans@).subrange(0, k as int)),
{
    let ghost all = spans_view(p@, spans@);
    let mut r = String::new();
    let mut j: usize = 0;
    assert(all.subrange(0, 0) =~= Seq::<Seq<char>>::empty());
    while j < k
        invariant
            j <= k <= spans@.len(),
            all == spans_view(p@, spans@),
            spans_in(p@, spans@),
            r@ == join(all.subrange(0, j as int)),
        decreases k - j,
    {
        let ghost upto = all.subrange(0, j + 1);
        assert(upto.drop_last() =~= all.subrange(0, j as int));
        assert(upto.last() == all[j as int]);
        let (lo, hi) = spans[j];
        assert(spans@[j as int].0 <= spans@[j as int].1 <= p@.len());
        if j > 0 {
            r.append("/");
        } else {
            assert(r@ =~= Seq::<char>::empty());
        }
        r.append(p.substring_char(lo, hi));
        j += 1;
        assert(r@ =~= join(upto));
    }
    r
}

/// A path after normalisation: the joined form, and each directory above the
/// file, deepest first, down to (not including) the root.
#[derive(Debug, Clone)]
pub struct Normalized {
    pub path: String,
    pub parents: Vec<String>,
}

/// The directories above the file at `ss`, deepest first; the root itself is
/// not among them.
pub open spec fn parents_of(ss: Seq<Seq<char>>) -> Seq<Seq<char>> {
    Seq::new(
        if ss.len() == 0 { 0 } else { (ss.len() - 1) as nat },
        |j: int| join(ss.subrange(0, ss.len() - 1 - j)),
    )
}

/// The normal form of a path that does not escape.
pub fn normalize_path(resolved: &str) -> (r: Option<Normalized>)
    ensures
        r is Some == !escapes(resolved@),
        r is Some ==> r->0.path@ == join(normalized(resolved@)->0),
        r is Some ==> r->0.parents@.len() == parents_of(normalized(resolved@)->0).len(),
        r is Some ==> forall|j: int| 0 <= j < r->0.parents@.len()
            ==> (#[trigger] r->0.parents@[j])@ == parents_of(normalized(resolved@)->0)[j],
{
    let p = chars_of(resolved);
    match normalize(&p) {
        None => None,
        Some(spans) => {
            let ghost ss = spans_view(resolved@, spans@);
            let n = spans.len();
            assert(ss.subrange(0, n as int) =~= ss);
            let path = join_spans(resolved, &spans, n);
            let mut parents: Vec<String> = Vec::new();
            let mut k: usize = n;
            if n > 0 {
                k = n - 1;
            }
            while k > 0
                invariant
                    n == ss.len(),
                    ss == spans_view(resolved@, spans@),
                    spans_in(resolved@, spans@),
                    k < n || k == 0,
                    n > 0 ==> parents@.len() == n - 1 - k,
                    n == 0 ==> parents@.len() == 0,
                    forall|j: int| 0 <= j < parents@.len()
                        ==> (#[trigger] parents@[j])@ == parents_of(ss)[j],
                decreases k,
            {
                let d = join_spans(resolved, &spans, k);
                parents.push(d);
                k -= 1;
            }
            Some(Normalized { path, parents })
        }
    }
}

pub open spec fn has_no_slash(q: Seq<char>) -> bool {
    forall|i: int| 0 <= i < q.len() ==> q[i] != '/'
}

/// Text without a `/` lengthens the last segment and adds none.
pub proof fn lemma_segments_extend(a: Seq<char>, q: Seq<char>)
    requires
        has_no_slash(q),
    ensures
        segments(a + q) == segments(a).update(segments(a).len() - 1, segments(a).last() + q),
    decreases q.len(),
{
    lemma_segments_nonempty(a);
    let s = segments(a);
    if q.len() == 0 {
        assert(a + q =~= a);
        assert(s.last() + q =~= s.last());
        assert(s.update(s.len() - 1, s.last()) =~= s);
    } else {
        let q0 = q.drop_last();
        assert(has_no_slash(q0)) by {
            assert forall|i: int| 0 <= i < q0.len() implies q0[i] != '/' by {
                assert(q0[i] == q[i]);
            }
        }
        lemma_segments_extend(a, q0);
        assert((a + q).drop_last() =~= a + q0);
        assert((a + q).last() == q.last());
        assert(q[q.len() - 1] != '/');
        let t = segments(a + q0);
        assert(t.last() == s.last() + q0);
        assert((s.last() + q0).push(q.last()) =~= s.last() + q);
        assert(t.update(t.len() - 1, t.last().push(q.last())) =~= s.update(s.len() - 1, s.last() + q));
    }
}

/// A path without `/` is a single segment.
pub proof fn lemma_segments_single(q: Seq<char>)
    requires
        has_no_slash(q),
    ensures
        segments(q) == seq![q],
{
    lemma_segments_extend(Seq::empty(), q);
    assert(Seq::<char>::empty() + q =~= q);
    assert(Seq::<char>::empty() + q =~= q);
    assert(seq![Seq::<char>::empty()].update(0, Seq::<char>::empty() + q) =~= seq![q]);
}

/// A single name that is not `.`, `..` or empty stays as it is.
pub proof fn lemma_plain_name_confined(q: Seq<char>)
    requires
        has_no_slash(q),
        q.len() > 0,
        q[0] != '.',
    ensures
        normalized(q) == Some(seq![q]),
        confined(q),
{
    lemma_segments_single(q);
    let s = seq![q];
    assert(s.drop_last() =~= Seq::<Seq<char>>::empty());
    assert(s.last() == q);
    reveal_strlit(".");
    reveal_strlit("..");
    assert(q != "."@);
    assert(q != ".."@);
    assert(walk(s.drop_last()) == Some(Seq::<Seq<char>>::empty()));
    assert(Seq::<Seq<char>>::empty().push(q) =~= s);
    assert(step(Some(Seq::<Seq<char>>::empty()), q) == Some(s));
    assert(walk(s) == Some(s));
}

} // verus!
