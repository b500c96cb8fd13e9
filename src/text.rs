//! Character-level helpers: whitespace, trimming, slicing and word splitting.
use vstd::prelude::*;

verus! {

/// The Unicode `White_Space` property, as `char::is_whitespace` documents it.
pub open spec fn is_ws(c: char) -> bool {
    let u = c as u32;
    (0x09 <= u && u <= 0x0D) || u == 0x20 || u == 0x85 || u == 0xA0 || u == 0x1680 || (0x2000
        <= u && u <= 0x200A) || u == 0x2028 || u == 0x2029 || u == 0x202F || u == 0x205F || u
        == 0x3000
}

/// First index at or after `i` that does not hold whitespace.
pub open spec fn skip_ws(t: Seq<char>, i: int) -> int
    decreases t.len() - i,
{
    if 0 <= i < t.len() && is_ws(t[i]) {
        skip_ws(t, i + 1)
    } else {
        i
    }
}

/// Last end index at or before `j`, and not below `lo`, whose preceding character is not whitespace.
pub open spec fn back_ws(t: Seq<char>, lo: int, j: int) -> int
    decreases j - lo,
{
    if lo < j && j <= t.len() && is_ws(t[j - 1]) {
        back_ws(t, lo, j - 1)
    } else {
        j
    }
}

/// `t` without leading and trailing whitespace.
pub open spec fn trim(t: Seq<char>) -> Seq<char> {
    let lo = skip_ws(t, 0);
    t.subrange(lo, back_ws(t, lo, t.len() as int))
}

pub fn is_whitespace(c: char) -> (r: bool)
    ensures
        r == is_ws(c),
{
    let u = c as u32;
    (0x09 <= u && u <= 0x0D) || u == 0x20 || u == 0x85 || u == 0xA0 || u == 0x1680 || (0x2000
        <= u && u <= 0x200A) || u == 0x2028 || u == 0x2029 || u == 0x202F || u == 0x205F || u
        == 0x3000
}

/// The characters of `s`, in order.
pub fn chars_of(s: &str) -> (r: Vec<char>)
    ensures
        r@ == s@,
{
    let n = s.unicode_len();
    let mut r: Vec<char> = Vec::new();
    let mut i: usize = 0;
    while i < n
        invariant
            n == s@.len(),
            i <= n,
            r@ == s@.subrange(0, i as int),
        decreases n - i,
    {
        r.push(s.get_char(i));
        i = i + 1;
        assert(r@ =~= s@.subrange(0, i as int));
    }
    assert(r@ =~= s@);
    r
}

/// The characters of `v` from `from` up to `to`.
pub fn slice_chars(v: &Vec<char>, from: usize, to: usize) -> (r: Vec<char>)
    requires
        from <= to <= v@.len(),
    ensures
        r@ == v@.subrange(from as int, to as int),
{
    let mut r: Vec<char> = Vec::new();
    let mut i: usize = from;
    while i < to
        invariant
            from <= i <= to <= v@.len(),
            r@ == v@.subrange(from as int, i as int),
        decreases to - i,
    {
        r.push(v[i]);
        i = i + 1;
        assert(r@ =~= v@.subrange(from as int, i as int));
    }
    r
}

/// `v` without leading and trailing whitespace.
pub fn trim_chars(v: &Vec<char>) -> (r: Vec<char>)
    ensures
        r@ == trim(v@),
{
    let (lo, hi) = trim_bounds(v);
    slice_chars(v, lo, hi)
}

/// `s` without leading and trailing whitespace.
pub fn trim_str(s: &str) -> (r: String)
    ensures
        r@ == trim(s@),
{
    let v = chars_of(s);
    let (lo, hi) = trim_bounds(&v);
    String::from_str(s.substring_char(lo, hi))
}

/// Where the text of `v` without surrounding whitespace begins and ends.
fn trim_bounds(v: &Vec<char>) -> (r: (usize, usize))
    ensures
        r.0 <= r.1 <= v@.len(),
        v@.subrange(r.0 as int, r.1 as int) == trim(v@),
{
    let n = v.len();
    let mut lo: usize = 0;
    while lo < n && is_whitespace(v[lo])
        invariant
            lo <= n == v@.len(),
            skip_ws(v@, 0) == skip_ws(v@, lo as int),
        decreases n - lo,
    {
        lo = lo + 1;
    }
    let mut hi: usize = n;
    while hi > lo && is_whitespace(v[hi - 1])
        invariant
            lo <= hi <= n == v@.len(),
            skip_ws(v@, 0) == lo,
            back_ws(v@, lo as int, n as int) == back_ws(v@, lo as int, hi as int),
        decreases hi,
    {
        hi = hi - 1;
    }
    (lo, hi)
}

/// Whether `t` begins with `p`.
pub open spec fn starts_with(t: Seq<char>, p: Seq<char>) -> bool {
    p.len() <= t.len() && t.subrange(0, p.len() as int) == p
}

/// Whether the characters of `v` begin with those of `p`.
pub fn has_prefix(v: &Vec<char>, p: &str) -> (r: bool)
    ensures
        r == starts_with(v@, p@),
{
    let n = p.unicode_len();
    if n > v.len() {
        return false;
    }
    let mut i: usize = 0;
    while i < n
        invariant
            n == p@.len() <= v@.len(),
            i <= n,
            forall|k: int| 0 <= k < i ==> v@[k] == p@[k],
        decreases n - i,
    {
        if v[i] != p.get_char(i) {
            assert(v@.subrange(0, n as int)[i as int] != p@[i as int]);
            return false;
        }
        i = i + 1;
    }
    assert(v@.subrange(0, n as int) =~= p@);
    true
}


/// First index at or after `i` that holds whitespace, or the end.
pub open spec fn word_end(t: Seq<char>, i: int) -> int
    decreases t.len() - i,
{
    if 0 <= i < t.len() && !is_ws(t[i]) {
        word_end(t, i + 1)
    } else {
        i
    }
}

proof fn lemma_skip_bounds(t: Seq<char>, i: int)
    requires
        0 <= i <= t.len(),
    ensures
        i <= skip_ws(t, i) <= t.len(),
        skip_ws(t, i) < t.len() ==> !is_ws(t[skip_ws(t, i)]),
    decreases t.len() - i,
{
    if i < t.len() && is_ws(t[i]) {
        lemma_skip_bounds(t, i + 1);
    }
}

proof fn lemma_word_end_bounds(t: Seq<char>, i: int)
    requires
        0 <= i <= t.len(),
    ensures
        i <= word_end(t, i) <= t.len(),
        i < t.len() && !is_ws(t[i]) ==> i < word_end(t, i),
    decreases t.len() - i,
{
    if i < t.len() && !is_ws(t[i]) {
        lemma_word_end_bounds(t, i + 1);
    }
}

/// The whitespace-separated words of `t` from index `i` on.
pub open spec fn words_from(t: Seq<char>, i: int) -> Seq<Seq<char>>
    decreases t.len() - i,
{
    let j = skip_ws(t, i);
    if i < 0 || j >= t.len() || j < i {
        Seq::empty()
    } else {
        let k = word_end(t, j);
        if k <= j || k > t.len() {
            Seq::empty()
        } else {
            seq![t.subrange(j, k)] + words_from(t, k)
        }
    }
}

/// The whitespace-separated words of `t`, as `str::split_whitespace` gives them.
pub open spec fn words(t: Seq<char>) -> Seq<Seq<char>> {
    words_from(t, 0)
}

pub open spec fn views(v: Seq<String>) -> Seq<Seq<char>> {
    v.map_values(|w: String| w@)
}

/// The whitespace-separated words of `s`.
pub fn split_words(s: &str) -> (r: Vec<String>)
    ensures
        views(r@) == words(s@),
{
    let v = chars_of(s);
    let n = v.len();
    let mut r: Vec<String> = Vec::new();
    let mut i: usize = 0;
    assert(views(r@) =~= Seq::<Seq<char>>::empty());
    while i < n
        invariant
            n == v@.len() == s@.len(),
            v@ == s@,
            i <= n,
            views(r@) + words_from(v@, i as int) == words(v@),
        decreases n - i,
    {
        let ghost i0 = i as int;
        proof {
            lemma_skip_bounds(v@, i0);
        }
        let mut j: usize = i;
        while j < n && is_whitespace(v[j])
            invariant
                i <= j <= n == v@.len(),
                skip_ws(v@, i as int) == skip_ws(v@, j as int),
            decreases n - j,
        {
            j = j + 1;
        }
        if j == n {
            assert(words_from(v@, i0) =~= Seq::<Seq<char>>::empty());
            assert(views(r@) + words_from(v@, i0) =~= views(r@));
            i = n;
            assert(words_from(v@, n as int) =~= Seq::<Seq<char>>::empty());
            assert(views(r@) + words_from(v@, i as int) =~= views(r@));
        } else {
            proof {
                lemma_word_end_bounds(v@, j as int);
            }
            let mut k: usize = j;
            while k < n && !is_whitespace(v[k])
                invariant
                    j <= k <= n == v@.len(),
                    word_end(v@, j as int) == word_end(v@, k as int),
                decreases n - k,
            {
                k = k + 1;
            }
            let w = String::from_str(s.substring_char(j, k));
            let ghost old_r = r@;
            r.push(w);
            proof {
                assert(v@ == s@);
                assert(views(r@) =~= views(old_r) + seq![v@.subrange(j as int, k as int)]);
                assert(words_from(v@, i0) == seq![v@.subrange(j as int, k as int)] + words_from(v@, k as int));
                assert(views(r@) + words_from(v@, k as int) =~= views(old_r) + words_from(v@, i0));
            }
            i = k;
        }
    }
    assert(words_from(v@, n as int) =~= Seq::<Seq<char>>::empty());
    assert(views(r@) + words_from(v@, n as int) =~= views(r@));
    r
}

} // verus!
