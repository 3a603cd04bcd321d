//! Mapping a key to a path relative to the store root.
//!
//! Rules are tried in order and the first that applies wins: the fixed alias
//! table, a numbered family (`tk3`), the pending prefix (`pd-tk`), and last the
//! key itself taken as a path, with `.md` added where it has no extension.
use vstd::prelude::*;
use crate::text::{chars_of, span_is};

verus! {

/// The fixed alias table.
pub open spec fn alias_spec(k: Seq<char>) -> Option<Seq<char>> {
    if k == "tk"@ {
        Some("tasks.md"@)
    } else if k == "rq"@ {
        Some("requirements.md"@)
    } else if k == "pdt"@ {
        Some("pending/tasks.md"@)
    } else {
        None
    }
}

/// The numbered families: a base and the file stem its members share.
pub open spec fn family_stem(base: Seq<char>) -> Option<Seq<char>> {
    if base == "tk"@ {
        Some("tasks"@)
    } else if base == "rq"@ {
        Some("requirements"@)
    } else {
        None
    }
}

pub open spec fn is_digit(c: char) -> bool {
    '0' <= c && c <= '9'
}

/// A positive integer written in decimal, without leading zeros.
pub open spec fn is_number(s: Seq<char>) -> bool {
    &&& s.len() > 0
    &&& s[0] != '0'
    &&& forall|i: int| 0 <= i < s.len() ==> is_digit(#[trigger] s[i])
}

/// `<base><N>` for a family base of two letters: `tk3` is `tasks-3.md`.
pub open spec fn numbered_spec(k: Seq<char>) -> Option<Seq<char>> {
    if k.len() > 2 && family_stem(k.subrange(0, 2)) is Some && is_number(k.subrange(2, k.len() as int)) {
        Some(family_stem(k.subrange(0, 2))->0 + "-"@ + k.subrange(2, k.len() as int) + ".md"@)
    } else {
        None
    }
}

/// The first two rules: the table, then the numbered families.
pub open spec fn direct_spec(k: Seq<char>) -> Option<Seq<char>> {
    if alias_spec(k) is Some {
        alias_spec(k)
    } else {
        numbered_spec(k)
    }
}

/// Where the last segment of `p` starts: just after its last `/`, or 0.
pub open spec fn file_start(p: Seq<char>) -> int
    decreases p.len(),
{
    if p.len() == 0 {
        0
    } else if p.last() == '/' {
        p.len() as int
    } else {
        file_start(p.drop_last())
    }
}

/// The last segment of `p`: its file name.
pub open spec fn file_part(p: Seq<char>) -> Seq<char> {
    p.subrange(file_start(p), p.len() as int)
}

/// `p` with a `pending/` segment just before its file name.
pub open spec fn insert_pending(p: Seq<char>) -> Seq<char> {
    p.subrange(0, file_start(p)) + "pending/"@ + file_part(p)
}

/// A file name has an extension when a `.` stands anywhere after its first character.
pub open spec fn has_extension(f: Seq<char>) -> bool {
    exists|i: int| 1 <= i < f.len() && f[i] == '.'
}

/// The key taken as a path, with `.md` added where its file name has no extension.
pub open spec fn fallback_spec(k: Seq<char>) -> Seq<char> {
    if has_extension(file_part(k)) {
        k
    } else {
        k + ".md"@
    }
}

pub open spec fn is_pending_key(k: Seq<char>) -> bool {
    k.len() >= 3 && k.subrange(0, 3) == "pd-"@ && direct_spec(k.subrange(3, k.len() as int)) is Some
}

/// The path a key stands for, relative to the store root.
pub open spec fn resolve_spec(k: Seq<char>) -> Seq<char> {
    if direct_spec(k) is Some {
        direct_spec(k)->0
    } else if is_pending_key(k) {
        insert_pending(direct_spec(k.subrange(3, k.len() as int))->0)
    } else {
        fallback_spec(k)
    }
}

fn str_of(s: &str) -> (r: String)
    ensures
        r@ == s@,
{
    String::from_str(s)
}

fn family_stem_of(k: &Vec<char>) -> (r: Option<&'static str>)
    requires
        k@.len() >= 2,
    ensures
        r is Some == family_stem(k@.subrange(0, 2)) is Some,
        r is Some ==> r->0@ == family_stem(k@.subrange(0, 2))->0,
{
    if span_is(k, 0, 2, "tk") {
        Some("tasks")
    } else if span_is(k, 0, 2, "rq") {
        Some("requirements")
    } else {
        None
    }
}

fn is_number_at(k: &Vec<char>, lo: usize) -> (r: bool)
    requires
        lo <= k@.len(),
    ensures
        r == is_number(k@.subrange(lo as int, k@.len() as int)),
{
    let n = k.len();
    if lo >= n || k[lo] == '0' {
        return false;
    }
    let mut i: usize = lo;
    while i < n
        invariant
            n == k@.len(),
            lo <= i <= n,
            forall|j: int| lo <= j < i ==> is_digit(k@[j]),
        decreases n - i,
    {
        if !('0' <= k[i] && k[i] <= '9') {
            assert(!is_digit(k@.subrange(lo as int, n as int)[i - lo]));
            return false;
        }
        i += 1;
    }
    let ghost s = k@.subrange(lo as int, n as int);
    assert forall|j: int| 0 <= j < s.len() implies is_digit(#[trigger] s[j]) by {
        assert(s[j] == k@[lo + j]);
    }
    true
}

/// The first two rules on `key`, whose characters are `k`.
fn direct_path(key: &str, k: &Vec<char>) -> (r: Option<String>)
    requires
        k@ == key@,
    ensures
        r is Some == direct_spec(key@) is Some,
        r is Some ==> r->0@ == direct_spec(key@)->0,
{
    let n = k.len();
    if span_is(k, 0, n, "tk") {
        assert(k@.subrange(0, n as int) =~= k@);
        return Some(str_of("tasks.md"));
    }
    if span_is(k, 0, n, "rq") {
        assert(k@.subrange(0, n as int) =~= k@);
        return Some(str_of("requirements.md"));
    }
    if span_is(k, 0, n, "pdt") {
        assert(k@.subrange(0, n as int) =~= k@);
        return Some(str_of("pending/tasks.md"));
    }
    assert(k@.subrange(0, n as int) =~= k@);
    if n > 2 {
        if let Some(stem) = family_stem_of(k) {
            if is_number_at(k, 2) {
                let mut r = str_of(stem);
                r.append("-");
                r.append(key.substring_char(2, n));
                r.append(".md");
                return Some(r);
            }
        }
    }
    None
}

fn file_start_of(k: &Vec<char>) -> (r: usize)
    ensures
        r == file_start(k@),
        r <= k@.len(),
{
    let n = k.len();
    let mut fs: usize = 0;
    let mut i: usize = 0;
    while i < n
        invariant
            n == k@.len(),
            i <= n,
            fs <= i,
            fs == file_start(k@.subrange(0, i as int)),
        decreases n - i,
    {
        let ghost next = k@.subrange(0, i + 1);
        assert(next.drop_last() =~= k@.subrange(0, i as int));
        assert(next.last() == k@[i as int]);
        if k[i] == '/' {
            fs = i + 1;
        }
        i += 1;
    }
    assert(k@.subrange(0, n as int) =~= k@);
    fs
}

fn has_extension_of(k: &Vec<char>, fs: usize) -> (r: bool)
    requires
        fs == file_start(k@),
        fs <= k@.len(),
    ensures
        r == has_extension(file_part(k@)),
{
    let m = k.len() - fs;
    let ghost f = file_part(k@);
    let mut i: usize = 1;
    while i < m
        invariant
            1 <= i,
            k@.len() <= usize::MAX,
            f == file_part(k@),
            m == f.len(),
            fs + m == k@.len(),
            f == k@.subrange(fs as int, k@.len() as int),
            forall|j: int| 1 <= j < i && j < m ==> f[j] != '.',
        decreases m - i,
    {
        if k[fs + i] == '.' {
            assert(f[i as int] == k@[fs + i]);
            assert(1 <= i < f.len() && f[i as int] == '.');
            assert(has_extension(f));
            return true;
        }
        i += 1;
    }
    false
}

/// `p` with a `pending/` segment inserted just before its file name.
fn with_pending(p: &str) -> (r: String)
    ensures
        r@ == insert_pending(p@),
{
    let k = chars_of(p);
    let fs = file_start_of(&k);
    let mut r = str_of(p.substring_char(0, fs));
    r.append("pending/");
    r.append(p.substring_char(fs, k.len()));
    r
}

/// The path `key` stands for, relative to the store root. Never fails, and
/// reads nothing but its argument.
pub fn resolve_path(key: &str) -> (r: String)
    ensures
        r@ == resolve_spec(key@),
{
    let k = chars_of(key);
    let n = k.len();
    if let Some(p) = direct_path(key, &k) {
        return p;
    }
    if n >= 3 && span_is(&k, 0, 3, "pd-") {
        let base = key.substring_char(3, n);
        let bk = chars_of(base);
        if let Some(p) = direct_path(base, &bk) {
            return with_pending(p.as_str());
        }
    }
    let fs = file_start_of(&k);
    if has_extension_of(&k, fs) {
        str_of(key)
    } else {
        let mut r = str_of(key);
        r.append(".md");
        r
    }
}

} // verus!
