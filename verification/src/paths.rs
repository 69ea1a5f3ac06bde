//! Decomposing a canonical source path into its ordered segments, so a
//! consumer can render a navigable tree without re-parsing path strings.

use vstd::prelude::*;

verus! {

/// The values of a list of strings.
pub open spec fn strings_view(ss: Seq<String>) -> Seq<Seq<char>> {
    ss.map_values(|s: String| s@)
}

/// The length of the leading segment: the number of characters before
/// the first `/` separator.
pub open spec fn first_seg_len(s: Seq<char>) -> int
    decreases s.len(),
{
    if s.len() == 0 || s[0] == '/' {
        0
    } else {
        1 + first_seg_len(s.drop_first())
    }
}

pub proof fn lemma_first_seg_len_bounds(s: Seq<char>)
    ensures
        0 <= first_seg_len(s) <= s.len(),
    decreases s.len(),
{
    if !(s.len() == 0 || s[0] == '/') {
        lemma_first_seg_len_bounds(s.drop_first());
    }
}

/// `first_seg_len` is the position of the first separator (or the length
/// when there is none).
pub proof fn lemma_first_seg_len_at(s: Seq<char>, k: int)
    requires
        0 <= k <= s.len(),
        forall|j: int| 0 <= j < k ==> s[j] != '/',
        k < s.len() ==> s[k] == '/',
    ensures
        first_seg_len(s) == k,
    decreases k,
{
    if k == 0 {
    } else {
        assert(s[0] != '/');
        assert forall|j: int| 0 <= j < k - 1 implies s.drop_first()[j] != '/' by {
            assert(s.drop_first()[j] == s[j + 1]);
        }
        if k - 1 < s.drop_first().len() {
            assert(s.drop_first()[k - 1] == s[k]);
        }
        lemma_first_seg_len_at(s.drop_first(), k - 1);
    }
}

/// The ordered segments of a canonical path: the maximal `/`-free runs,
/// empty runs (leading, trailing or doubled separators) dropped.
pub open spec fn segments_of(s: Seq<char>) -> Seq<Seq<char>>
    decreases s.len(),
    via segments_of_decreases
{
    if s.len() == 0 {
        Seq::empty()
    } else if s[0] == '/' {
        segments_of(s.drop_first())
    } else {
        seq![s.take(first_seg_len(s))] + segments_of(s.skip(first_seg_len(s)))
    }
}

#[via_fn]
proof fn segments_of_decreases(s: Seq<char>) {
    if s.len() > 0 && s[0] != '/' {
        lemma_first_seg_len_bounds(s.drop_first());
        assert(first_seg_len(s) == 1 + first_seg_len(s.drop_first()));
    }
}

/// Splits a canonical path into its segments.
pub fn split_segments(p: &str) -> (r: Vec<String>)
    ensures
        strings_view(r@) == segments_of(p@),
{
    let n: usize = p.unicode_len();
    let mut r: Vec<String> = Vec::new();
    let mut i: usize = 0;
    proof {
        assert(p@.skip(0) =~= p@);
        assert(strings_view(r@) =~= Seq::<Seq<char>>::empty());
    }
    while i < n
        invariant
            i <= n,
            n == p@.len(),
            segments_of(p@) == strings_view(r@) + segments_of(p@.skip(i as int)),
        decreases n - i,
    {
        let c = p.get_char(i);
        if c == '/' {
            proof {
                let rest = p@.skip(i as int);
                assert(rest[0] == p@[i as int]);
                assert(rest.drop_first() =~= p@.skip(i + 1));
            }
            i = i + 1;
        } else {
            let start = i;
            proof {
                let rest = p@.skip(i as int);
                assert(rest[0] == p@[i as int]);
                assert(p@[start as int] != '/');
            }
            i = i + 1;
            loop
                invariant
                    start <= i <= n,
                    n == p@.len(),
                    forall|j: int| start <= j < i ==> p@[j] != '/',
                ensures
                    start <= i <= n,
                    forall|j: int| start <= j < i ==> p@[j] != '/',
                    i < n ==> p@[i as int] == '/',
                decreases n - i,
            {
                if i >= n {
                    break;
                }
                if p.get_char(i) == '/' {
                    break;
                }
                i = i + 1;
            }
            let seg = p.substring_char(start, i);
            let ghost r_pre = r@;
            r.push(seg.to_owned());
            proof {
                let rest = p@.skip(start as int);
                let k = i - start;
                assert forall|j: int| 0 <= j < k implies rest[j] != '/' by {
                    assert(rest[j] == p@[start + j]);
                }
                if k < rest.len() {
                    assert(rest[k] == p@[i as int]);
                }
                lemma_first_seg_len_at(rest, k);
                assert(rest.take(k) =~= p@.subrange(start as int, i as int));
                assert(rest.skip(k) =~= p@.skip(i as int));
                assert(rest.len() > 0 && rest[0] != '/');
                assert(segments_of(rest) == seq![rest.take(k)] + segments_of(p@.skip(i as int)));
                assert(seg@ == rest.take(k));
                assert(strings_view(r@) =~= strings_view(r_pre) + seq![seg@]);
                assert(strings_view(r_pre) + (seq![seg@] + segments_of(p@.skip(i as int))) =~= (
                strings_view(r_pre) + seq![seg@]) + segments_of(p@.skip(i as int)));
            }
        }
    }
    proof {
        assert(p@.skip(n as int) =~= Seq::<char>::empty());
        assert(strings_view(r@) =~= strings_view(r@) + segments_of(p@.skip(n as int)));
    }
    r
}

} // verus!
