//! Small verified operations on texts, over their character sequences.
use vstd::prelude::*;
use vstd::string::*;

verus! {

/// Whether `s` ends with `suffix`.
pub open spec fn ends_with(s: Seq<char>, suffix: Seq<char>) -> bool {
    suffix.len() <= s.len() && s.subrange(s.len() - suffix.len(), s.len() as int) == suffix
}

/// The position of the last `/` in `s`, or -1 when there is none.
pub open spec fn last_slash(s: Seq<char>) -> int
    decreases s.len(),
{
    if s.len() == 0 {
        -1
    } else if s.last() == '/' {
        s.len() - 1
    } else {
        last_slash(s.drop_last())
    }
}

/// What follows the last `/` of a path: its final segment.
pub open spec fn final_segment(s: Seq<char>) -> Seq<char> {
    s.subrange(last_slash(s) + 1, s.len() as int)
}

pub open spec fn sol_suffix() -> Seq<char> {
    seq!['.', 's', 'o', 'l']
}

/// `s` with every trailing `.sol` removed.
pub open spec fn trim_sol(s: Seq<char>) -> Seq<char>
    decreases s.len(),
{
    if ends_with(s, sol_suffix()) {
        trim_sol(s.subrange(0, s.len() - 4))
    } else {
        s
    }
}

/// Whether two texts are equal.
pub fn same_text(a: &str, b: &str) -> (r: bool)
    ensures
        r == (a@ == b@),
{
    let n = a.unicode_len();
    let m = b.unicode_len();
    if n != m {
        return false;
    }
    let mut i: usize = 0;
    while i < n
        invariant
            n == a@.len(),
            m == b@.len(),
            n == m,
            i <= n,
            forall|j: int| 0 <= j < i ==> a@[j] == b@[j],
        decreases n - i,
    {
        if a.get_char(i) != b.get_char(i) {
            return false;
        }
        i += 1;
    }
    assert(a@ =~= b@);
    true
}

/// Whether the first `end` characters of `s` end with `suffix`.
fn prefix_ends_with(s: &str, end: usize, suffix: &str) -> (r: bool)
    requires
        end <= s@.len(),
    ensures
        r == ends_with(s@.subrange(0, end as int), suffix@),
{
    let k = suffix.unicode_len();
    if k > end {
        return false;
    }
    let start = end - k;
    let mut i: usize = 0;
    while i < k
        invariant
            k == suffix@.len(),
            start + k == end,
            end <= s@.len(),
            i <= k,
            forall|j: int| 0 <= j < i ==> s@[start + j] == suffix@[j],
        decreases k - i,
    {
        if s.get_char(start + i) != suffix.get_char(i) {
            assert(s@.subrange(0, end as int).subrange(start as int, end as int)[i as int]
                != suffix@[i as int]);
            return false;
        }
        i += 1;
    }
    assert(s@.subrange(0, end as int).subrange(start as int, end as int) =~= suffix@);
    true
}

/// Whether `s` ends with `suffix`.
pub fn has_suffix(s: &str, suffix: &str) -> (r: bool)
    ensures
        r == ends_with(s@, suffix@),
{
    let n = s.unicode_len();
    assert(s@.subrange(0, n as int) =~= s@);
    prefix_ends_with(s, n, suffix)
}

proof fn lemma_last_slash(s: Seq<char>, k: int)
    requires
        -1 <= k < s.len(),
        k >= 0 ==> s[k] == '/',
        forall|j: int| k < j < s.len() ==> s[j] != '/',
    ensures
        last_slash(s) == k,
    decreases s.len(),
{
    if s.len() > 0 && s.last() != '/' {
        lemma_last_slash(s.drop_last(), k);
    }
}

/// The final segment of a `/`-separated path.
pub fn final_segment_of(path: &str) -> (r: &str)
    ensures
        r@ == final_segment(path@),
{
    let n = path.unicode_len();
    let mut i: usize = n;
    while i > 0
        invariant
            n == path@.len(),
            i <= n,
            forall|j: int| i <= j < n ==> path@[j] != '/',
        decreases i,
    {
        if path.get_char(i - 1) == '/' {
            proof {
                lemma_last_slash(path@, i - 1);
            }
            return path.substring_char(i, n);
        }
        i -= 1;
    }
    proof {
        lemma_last_slash(path@, -1);
    }
    path.substring_char(0, n)
}

/// The text with every trailing `.sol` removed.
pub fn trim_sol_of(s: &str) -> (r: &str)
    ensures
        r@ == trim_sol(s@),
{
    let n = s.unicode_len();
    let mut end: usize = n;
    assert(s@.subrange(0, n as int) =~= s@);
    while prefix_ends_with(s, end, ".sol")
        invariant
            n == s@.len(),
            end <= n,
            trim_sol(s@.subrange(0, end as int)) == trim_sol(s@),
        decreases end,
    {
        proof {
            reveal_strlit(".sol");
            assert(".sol"@ =~= sol_suffix());
            assert(s@.subrange(0, end as int).subrange(0, end - 4) =~= s@.subrange(
                0,
                end - 4,
            ));
        }
        end -= 4;
    }
    proof {
        reveal_strlit(".sol");
        assert(".sol"@ =~= sol_suffix());
    }
    s.substring_char(0, end)
}

/// Whether `pattern` occurs in `s`.
pub open spec fn occurs_in(s: Seq<char>, pattern: Seq<char>) -> bool {
    exists|i: int|
        0 <= i && i + pattern.len() <= s.len() && #[trigger] s.subrange(i, i + pattern.len())
            == pattern
}

/// Whether `pattern` occurs in `s`.
pub fn contains_text(s: &str, pattern: &str) -> (r: bool)
    ensures
        r == occurs_in(s@, pattern@),
{
    let n = s.unicode_len();
    let k = pattern.unicode_len();
    if k > n {
        proof {
            assert forall|i: int| 0 <= i && i + k <= n implies #[trigger] s@.subrange(i, i + k)
                != pattern@ by {}
        }
        return false;
    }
    if k == 0 {
        assert(s@.subrange(0, 0 + pattern@.len() as int) =~= pattern@);
        return true;
    }
    let mut start: usize = 0;
    while start <= n - k
        invariant
            n == s@.len(),
            k == pattern@.len(),
            0 < k <= n,
            start <= n - k + 1,
            forall|i: int| 0 <= i < start ==> #[trigger] s@.subrange(i, i + k) != pattern@,
        decreases n - start,
    {
        let mut j: usize = 0;
        let mut matched = true;
        while j < k
            invariant
                n == s@.len(),
                k == pattern@.len(),
                start + k <= n,
                j <= k,
                matched ==> forall|m: int| 0 <= m < j ==> s@[start + m] == pattern@[m],
                !matched ==> s@.subrange(start as int, start + k) != pattern@,
            decreases k - j,
        {
            if matched && s.get_char(start + j) != pattern.get_char(j) {
                assert(s@.subrange(start as int, start + k)[j as int] != pattern@[j as int]);
                matched = false;
            }
            j += 1;
        }
        if matched {
            assert(s@.subrange(start as int, start + k) =~= pattern@);
            return true;
        }
        start += 1;
    }
    false
}

} // verus!
