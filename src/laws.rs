//! Properties that relate key resolution, validation and the store's plans.
use vstd::prelude::*;
use crate::resolve::{
    alias_spec, direct_spec, family_stem, file_part, file_start, has_extension, is_digit,
    is_number, is_pending_key, numbered_spec, resolve_spec,
};
use crate::store::target_spec;
use crate::validate::{join, normalized, parents_of};
use crate::validate::{
    confined, escapes, has_no_slash, lemma_plain_name_confined, lemma_segments_extend,
    lemma_segments_nonempty, lemma_segments_single, segments, walk,
};

verus! {

proof fn lemma_file_start_bounds(p: Seq<char>)
    ensures
        0 <= file_start(p) <= p.len(),
    decreases p.len(),
{
    if p.len() > 0 {
        lemma_file_start_bounds(p.drop_last());
    }
}

/// The last segment of a path is its file name.
pub proof fn lemma_last_segment_is_file_part(p: Seq<char>)
    ensures
        segments(p).last() == file_part(p),
    decreases p.len(),
{
    if p.len() == 0 {
        assert(file_part(p) =~= Seq::<char>::empty());
    } else {
        let q = p.drop_last();
        lemma_last_segment_is_file_part(q);
        lemma_segments_nonempty(q);
        lemma_file_start_bounds(q);
        if p.last() == '/' {
            assert(file_part(p) =~= Seq::<char>::empty());
        } else {
            assert(file_start(p) == file_start(q));
            assert(file_part(p) =~= file_part(q).push(p.last()));
        }
    }
}

/// Keys that the table or a numbered family resolves are single plain names.
proof fn lemma_direct_key_is_plain(k: Seq<char>)
    requires
        direct_spec(k) is Some,
    ensures
        has_no_slash(k),
        k.len() > 0,
        k[0] != '.',
{
    reveal_strlit("tk");
    reveal_strlit("rq");
    reveal_strlit("pdt");
    if alias_spec(k) is Some {
        assert(k == "tk"@ || k == "rq"@ || k == "pdt"@);
    } else {
        assert(numbered_spec(k) is Some);
        let base = k.subrange(0, 2);
        let digits = k.subrange(2, k.len() as int);
        assert(family_stem(base) is Some);
        assert(base == "tk"@ || base == "rq"@);
        assert(k[0] == base[0] && k[1] == base[1]);
        assert(is_number(digits));
        assert forall|i: int| 0 <= i < k.len() implies k[i] != '/' by {
            if i >= 2 {
                assert(k[i] == digits[i - 2]);
                assert(is_digit(digits[i - 2]));
            }
        }
    }
}

/// `pending/tasks.md` is two plain names.
proof fn lemma_pending_tasks_confined()
    ensures
        confined("pending/tasks.md"@),
{
    reveal_strlit("pending");
    reveal_strlit("pending/");
    reveal_strlit("tasks.md");
    reveal_strlit("pending/tasks.md");
    reveal_strlit(".");
    reveal_strlit("..");
    let dir = "pending"@;
    let name = "tasks.md"@;
    assert(has_no_slash(dir));
    assert(has_no_slash(name));
    lemma_plain_name_confined(dir);
    lemma_segments_single(dir);
    let d = dir.push('/');
    assert(d.drop_last() =~= dir);
    assert(d.last() == '/');
    assert(segments(d) == seq![dir].push(Seq::<char>::empty()));
    lemma_segments_extend(d, name);
    assert(d + name =~= "pending/tasks.md"@);
    let ss = seq![dir, name];
    assert(seq![dir].push(Seq::<char>::empty()).update(1, Seq::<char>::empty() + name) =~= ss);
    assert(segments("pending/tasks.md"@) == ss);
    assert(ss.drop_last() =~= seq![dir]);
    assert(walk(seq![dir]) == Some(seq![dir]));
    assert(name != "."@ && name != ".."@);
    assert(seq![dir].push(name) =~= ss);
    assert(walk(ss) == Some(ss));
}

/// Every key in the alias table resolves to its entry, a Markdown file inside
/// the store; the result is a function of the key alone.
pub proof fn alias_keys_resolve(k: Seq<char>)
    requires
        alias_spec(k) is Some,
    ensures
        resolve_spec(k) == alias_spec(k)->0,
        confined(resolve_spec(k)),
        resolve_spec(k).len() >= 3,
        resolve_spec(k).subrange(resolve_spec(k).len() - 3, resolve_spec(k).len() as int) == ".md"@,
{
    reveal_strlit("tk");
    reveal_strlit("rq");
    reveal_strlit("pdt");
    reveal_strlit("tasks.md");
    reveal_strlit("requirements.md");
    reveal_strlit("pending/tasks.md");
    reveal_strlit(".md");
    let r = resolve_spec(k);
    assert(r.subrange(r.len() - 3, r.len() as int) =~= ".md"@);
    if k == "pdt"@ {
        lemma_pending_tasks_confined();
    } else {
        assert(has_no_slash(r));
        lemma_plain_name_confined(r);
    }
}

/// A key whose own `..` segments climb above the root is refused, whichever
/// rule resolves it: its resolved path escapes too, so no file is named.
pub proof fn escaping_key_is_refused(key: Seq<char>)
    requires
        escapes(key),
    ensures
        !confined(resolve_spec(key)),
        target_spec(key) is None,
{
    reveal_strlit("pd-");
    reveal_strlit(".md");
    reveal_strlit("..");
    if direct_spec(key) is Some {
        lemma_direct_key_is_plain(key);
        lemma_plain_name_confined(key);
    } else if is_pending_key(key) {
        let rest = key.subrange(3, key.len() as int);
        lemma_direct_key_is_plain(rest);
        assert(key.subrange(0, 3) == "pd-"@);
        assert(key[0] == key.subrange(0, 3)[0]);
        assert forall|i: int| 0 <= i < key.len() implies key[i] != '/' by {
            if i >= 3 {
                assert(key[i] == rest[i - 3]);
            } else {
                assert(key[i] == key.subrange(0, 3)[i]);
            }
        }
        lemma_plain_name_confined(key);
    } else if !has_extension(file_part(key)) {
        let md = ".md"@;
        assert(has_no_slash(md));
        lemma_segments_extend(key, md);
        lemma_segments_nonempty(key);
        lemma_last_segment_is_file_part(key);
        let s = segments(key);
        let t = segments(key + md);
        assert(t.drop_last() =~= s.drop_last());
        assert(t.last() == s.last() + md);
        if walk(s.drop_last()) is Some {
            assert(s.last() == ".."@);
            assert(file_part(key)[1] == '.');
            assert(has_extension(file_part(key)));
        }
        assert(walk(t) is None);
    }
}

/// Every segment that the walk keeps is a plain name.
proof fn lemma_walk_names(ss: Seq<Seq<char>>)
    ensures
        walk(ss) is Some ==> forall|i: int| 0 <= i < walk(ss)->0.len()
            ==> (#[trigger] walk(ss)->0[i]).len() > 0,
    decreases ss.len(),
{
    if ss.len() > 0 {
        lemma_walk_names(ss.drop_last());
        if walk(ss) is Some {
            let st = walk(ss.drop_last())->0;
            let r = walk(ss)->0;
            assert forall|i: int| 0 <= i < r.len() implies (#[trigger] r[i]).len() > 0 by {
                if i < st.len() {
                    assert(r[i] == st[i]);
                }
            }
        }
    }
}

/// A prefix of the segments, joined and followed by `/`, starts the joined whole.
proof fn lemma_join_prefix(ss: Seq<Seq<char>>, m: int)
    requires
        1 <= m < ss.len(),
    ensures
        join(ss).len() > join(ss.subrange(0, m)).len(),
        join(ss).subrange(0, join(ss.subrange(0, m)).len() + 1 as int) == join(ss.subrange(0, m)) + "/"@,
    decreases ss.len(),
{
    reveal_strlit("/");
    let d = ss.drop_last();
    if m < ss.len() - 1 {
        lemma_join_prefix(d, m);
        assert(d.subrange(0, m) =~= ss.subrange(0, m));
    } else {
        assert(d =~= ss.subrange(0, m));
    }
    let p = join(ss.subrange(0, m));
    assert(join(ss).subrange(0, p.len() + 1 as int) =~= p + "/"@);
}

/// A join of at least one segment, each a plain name, is not empty.
proof fn lemma_join_nonempty(ss: Seq<Seq<char>>)
    requires
        ss.len() >= 1,
        forall|i: int| 0 <= i < ss.len() ==> (#[trigger] ss[i]).len() > 0,
    ensures
        join(ss).len() > 0,
{
    reveal_strlit("/");
}

/// The directories that `clean` may prune lie strictly inside the store and
/// above the removed file: none is the store root (the empty path), and the
/// file's path starts with each of them followed by `/`.
pub proof fn pruning_stays_inside(key: Seq<char>)
    requires
        target_spec(key) is Some,
    ensures
        ({
            let ss = normalized(resolve_spec(key))->0;
            forall|j: int| 0 <= j < parents_of(ss).len() ==> {
                &&& (#[trigger] parents_of(ss)[j]).len() > 0
                &&& target_spec(key)->0.len() > parents_of(ss)[j].len()
                &&& target_spec(key)->0.subrange(0, parents_of(ss)[j].len() + 1 as int)
                    == parents_of(ss)[j] + "/"@
            }
        }),
{
    let ss = normalized(resolve_spec(key))->0;
    lemma_walk_names(segments(resolve_spec(key)));
    assert forall|j: int| 0 <= j < parents_of(ss).len() implies {
        &&& (#[trigger] parents_of(ss)[j]).len() > 0
        &&& target_spec(key)->0.len() > parents_of(ss)[j].len()
        &&& target_spec(key)->0.subrange(0, parents_of(ss)[j].len() + 1 as int) == parents_of(ss)[j] + "/"@
    } by {
        let m = ss.len() - 1 - j;
        let pre = ss.subrange(0, m);
        assert(parents_of(ss)[j] == join(pre));
        assert forall|i: int| 0 <= i < pre.len() implies (#[trigger] pre[i]).len() > 0 by {
            assert(pre[i] == ss[i]);
        }
        lemma_join_nonempty(pre);
        lemma_join_prefix(ss, m);
    }
}

} // verus!
