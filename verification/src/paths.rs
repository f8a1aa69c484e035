//! File paths as '/'-separated strings, and what the dialects read off them:
//! their cleaned segment list, the file's name, its stem and its extension.
//! Empty segments and "." segments carry no information and are dropped; a
//! trailing ".." means the path names no file.

use vstd::prelude::*;

use crate::text::str_eq;
use crate::views::lemma_push_deep_view;
use vstd::string::StrSliceExecFns;

verus! {

/// Index of the first occurrence of `c` in `p`, or -1.
pub open spec fn char_idx(p: Seq<char>, c: char) -> int
    decreases p.len(),
{
    if p.len() == 0 {
        -1
    } else if p[0] == c {
        0
    } else {
        let r = char_idx(p.drop_first(), c);
        if r < 0 {
            -1
        } else {
            r + 1
        }
    }
}

pub proof fn lemma_char_idx(p: Seq<char>, c: char)
    ensures
        char_idx(p, c) == -1 || (0 <= char_idx(p, c) < p.len()),
        char_idx(p, c) == -1 ==> forall|j: int| 0 <= j < p.len() ==> p[j] != c,
        char_idx(p, c) >= 0 ==> p[char_idx(p, c)] == c,
        char_idx(p, c) >= 0 ==> forall|j: int| 0 <= j < char_idx(p, c) ==> p[j] != c,
    decreases p.len(),
{
    if p.len() > 0 && p[0] != c {
        lemma_char_idx(p.drop_first(), c);
        let r = char_idx(p.drop_first(), c);
        if r == -1 {
            assert(forall|j: int| 1 <= j < p.len() ==> p[j] == p.drop_first()[j - 1] && p[j] != c);
        } else {
            assert(p[r + 1] == p.drop_first()[r]);
            assert forall|j: int| 1 <= j < r + 1 implies p[j] != c by {
                assert(p[j] == p.drop_first()[j - 1]);
            }
        }
    }
}

/// Index of the last occurrence of `c` in `p`, or -1.
pub open spec fn last_idx(p: Seq<char>, c: char) -> int
    decreases p.len(),
{
    if p.len() == 0 {
        -1
    } else if p[p.len() - 1] == c {
        p.len() - 1
    } else {
        last_idx(p.drop_last(), c)
    }
}

pub proof fn lemma_last_idx(p: Seq<char>, c: char)
    ensures
        last_idx(p, c) == -1 || (0 <= last_idx(p, c) < p.len()),
        last_idx(p, c) == -1 ==> forall|j: int| 0 <= j < p.len() ==> p[j] != c,
        last_idx(p, c) >= 0 ==> p[last_idx(p, c)] == c,
        last_idx(p, c) >= 0 ==> forall|j: int| last_idx(p, c) < j < p.len() ==> p[j] != c,
    decreases p.len(),
{
    if p.len() > 0 && p[p.len() - 1] != c {
        lemma_last_idx(p.drop_last(), c);
        let r = last_idx(p.drop_last(), c);
        assert(forall|j: int| 0 <= j < p.len() - 1 ==> p[j] == p.drop_last()[j]);
    }
}

/// A segment that names something: non-empty and not the "here" marker.
pub open spec fn is_clean_seg(s: Seq<char>) -> bool {
    s.len() > 0 && s != "."@
}

/// The '/'-separated segments of a path, with empty and "." segments dropped.
pub open spec fn clean_segments(p: Seq<char>) -> Seq<Seq<char>>
    decreases p.len(),
    via clean_segments_dec
{
    let i = char_idx(p, '/');
    if i < 0 {
        if is_clean_seg(p) {
            seq![p]
        } else {
            seq![]
        }
    } else {
        let head = p.take(i);
        let rest = clean_segments(p.skip(i + 1));
        if is_clean_seg(head) {
            seq![head] + rest
        } else {
            rest
        }
    }
}

#[via_fn]
proof fn clean_segments_dec(p: Seq<char>) {
    lemma_char_idx(p, '/');
}

/// The path's file name: its last segment, unless that is the parent marker.
pub open spec fn file_name_of(p: Seq<char>) -> Option<Seq<char>> {
    let segs = clean_segments(p);
    if segs.len() > 0 && segs.last() != ".."@ {
        Some(segs.last())
    } else {
        None
    }
}

/// A file name's stem: everything before the last '.', unless the name has no
/// '.' past its first character.
pub open spec fn stem_of(name: Seq<char>) -> Seq<char> {
    let d = last_idx(name, '.');
    if d <= 0 {
        name
    } else {
        name.take(d)
    }
}

/// A path's extension: what follows the file name's last '.', unless the name
/// has no '.' past its first character.
pub open spec fn extension_of(p: Seq<char>) -> Option<Seq<char>> {
    match file_name_of(p) {
        Option::None => Option::None,
        Option::Some(name) => {
            let d = last_idx(name, '.');
            if d <= 0 {
                Option::None
            } else {
                Option::Some(name.skip(d + 1))
            }
        },
    }
}

/// A directory name that marks a source root and contributes no module name.
pub open spec fn is_root_seg(s: Seq<char>) -> bool {
    s == "src"@ || s == "tests"@ || s == "src-bin"@
}

/// Drop the leading run of source-root markers from a segment list.
pub open spec fn skip_roots(segs: Seq<Seq<char>>) -> Seq<Seq<char>>
    decreases segs.len(),
{
    if segs.len() > 0 && is_root_seg(segs[0]) {
        skip_roots(segs.drop_first())
    } else {
        segs
    }
}

pub proof fn lemma_skip_roots(segs: Seq<Seq<char>>, k: int)
    requires
        0 <= k <= segs.len(),
        forall|j: int| 0 <= j < k ==> is_root_seg(segs[j]),
        k < segs.len() ==> !is_root_seg(segs[k]),
    ensures
        skip_roots(segs) == segs.skip(k),
    decreases k,
{
    if k == 0 {
        assert(segs.skip(0) =~= segs);
    } else {
        assert(forall|j: int| 0 <= j < k - 1 ==> segs.drop_first()[j] == segs[j + 1]);
        assert(k - 1 < segs.drop_first().len() ==> segs.drop_first()[k - 1] == segs[k]);
        lemma_skip_roots(segs.drop_first(), k - 1);
        assert(segs.drop_first().skip(k - 1) =~= segs.skip(k));
    }
}

/// Split a path into its cleaned segments.
pub fn split_path(p: &str) -> (r: Vec<String>)
    ensures
        r.deep_view() == clean_segments(p@),
{
    let n: usize = p.unicode_len();
    let mut r: Vec<String> = Vec::new();
    let mut start: usize = 0;
    let mut i: usize = 0;
    proof {
        assert(p@.skip(0) =~= p@);
        assert(r.deep_view() + clean_segments(p@) =~= clean_segments(p@));
    }
    while i < n
        invariant
            start <= i <= n,
            n == p@.len(),
            clean_segments(p@) == r.deep_view() + clean_segments(p@.skip(start as int)),
            forall|j: int| start <= j < i ==> p@[j] != '/',
        decreases n - i,
    {
        if p.get_char(i) == '/' {
            let ghost suffix = p@.skip(start as int);
            proof {
                lemma_char_idx(suffix, '/');
                assert(suffix[i - start] == '/');
                assert forall|j: int| 0 <= j < i - start implies suffix[j] != '/' by {
                    assert(suffix[j] == p@[start + j]);
                }
                assert(char_idx(suffix, '/') == i - start);
                assert(suffix.take(i - start) =~= p@.subrange(start as int, i as int));
                assert(suffix.skip(i - start + 1) =~= p@.skip(i + 1));
            }
            let chunk = p.substring_char(start, i);
            if chunk.unicode_len() > 0 && !str_eq(chunk, ".") {
                let owned = chunk.to_owned();
                let ghost r0 = r;
                r.push(owned);
                proof {
                    lemma_push_deep_view(r0, r, owned);
                    assert(owned@ =~= suffix.take(i - start));
                    assert(r.deep_view() + clean_segments(p@.skip(i + 1)) =~= clean_segments(
                        p@,
                    ));
                }
            } else {
                proof {
                    assert(chunk@ =~= suffix.take(i - start));
                    assert(!is_clean_seg(suffix.take(i - start)));
                }
            }
            start = i + 1;
        }
        i = i + 1;
    }
    let ghost suffix = p@.skip(start as int);
    proof {
        lemma_char_idx(suffix, '/');
        assert forall|j: int| 0 <= j < suffix.len() implies suffix[j] != '/' by {
            assert(suffix[j] == p@[start + j]);
        }
        assert(char_idx(suffix, '/') == -1);
    }
    let chunk = p.substring_char(start, n);
    if chunk.unicode_len() > 0 && !str_eq(chunk, ".") {
        let owned = chunk.to_owned();
        let ghost r0 = r;
        r.push(owned);
        proof {
            lemma_push_deep_view(r0, r, owned);
            assert(owned@ =~= suffix);
            assert(r.deep_view() =~= clean_segments(p@));
        }
    } else {
        proof {
            assert(chunk@ =~= suffix);
            assert(r.deep_view() =~= clean_segments(p@));
        }
    }
    r
}

/// Position of the last '.' in a file name, if any.
fn last_dot(name: &str) -> (r: Option<usize>)
    ensures
        match r {
            Option::Some(d) => last_idx(name@, '.') == d,
            Option::None => last_idx(name@, '.') == -1,
        },
{
    let n: usize = name.unicode_len();
    let mut j: usize = n;
    let mut found: bool = false;
    let mut d: usize = 0;
    while j > 0 && !found
        invariant
            j <= n,
            n == name@.len(),
            !found ==> forall|i: int| j <= i < n ==> name@[i] != '.',
            found ==> 0 <= d < n && name@[d as int] == '.' && forall|i: int|
                d < i < n ==> name@[i] != '.',
        decreases j, if found { 0int } else { 1int },
    {
        if name.get_char(j - 1) == '.' {
            d = j - 1;
            found = true;
        } else {
            j = j - 1;
        }
    }
    proof {
        lemma_last_idx(name@, '.');
    }
    if found {
        Option::Some(d)
    } else {
        Option::None
    }
}

/// The stem of a file name.
pub fn stem_of_name(name: &str) -> (r: String)
    ensures
        r@ == stem_of(name@),
{
    match last_dot(name) {
        Option::Some(d) => {
            if d > 0 {
                proof {
                    lemma_last_idx(name@, '.');
                }
                let s = name.substring_char(0, d);
                proof {
                    assert(s@ =~= name@.take(d as int));
                }
                s.to_owned()
            } else {
                name.to_owned()
            }
        },
        Option::None => name.to_owned(),
    }
}

/// The extension of a path, if its file name has one.
pub fn extension_of_path(p: &str) -> (r: Option<String>)
    ensures
        r.deep_view() == extension_of(p@),
{
    let segs = split_path(p);
    let len: usize = segs.len();
    if len == 0 {
        return Option::None;
    }
    let name = &segs[len - 1];
    if str_eq(name.as_str(), "..") {
        return Option::None;
    }
    proof {
        assert(segs.deep_view()[len - 1] == name@);
    }
    match last_dot(name.as_str()) {
        Option::Some(d) => {
            if d > 0 {
                let n: usize = name.as_str().unicode_len();
                proof {
                    lemma_last_idx(name@, '.');
                }
                let e = name.as_str().substring_char(d + 1, n);
                proof {
                    assert(e@ =~= name@.skip(d + 1));
                }
                Option::Some(e.to_owned())
            } else {
                Option::None
            }
        },
        Option::None => Option::None,
    }
}

} // verus!
