//! Character-level text operations used by the lockfile parser, each
//! stated over `Seq<char>` and implemented on windows `s[lo..hi]` of a
//! vector of characters.

use vstd::prelude::*;

verus! {

/// Unicode's `White_Space` property, the set that `str::trim` removes.
pub open spec fn is_white_space(c: char) -> bool {
    let n = c as u32;
    ||| 0x09 <= n <= 0x0d
    ||| n == 0x20
    ||| n == 0x85
    ||| n == 0xa0
    ||| n == 0x1680
    ||| 0x2000 <= n <= 0x200a
    ||| n == 0x2028
    ||| n == 0x2029
    ||| n == 0x202f
    ||| n == 0x205f
    ||| n == 0x3000
}

/// A class of characters that can be stripped from the ends of a text.
#[derive(Clone, Copy)]
pub enum CharClass {
    WhiteSpace,
    Exactly(char),
}

impl CharClass {
    pub open spec fn holds(self, c: char) -> bool {
        match self {
            CharClass::WhiteSpace => is_white_space(c),
            CharClass::Exactly(x) => c == x,
        }
    }

    pub fn test(&self, c: char) -> (b: bool)
        ensures
            b == self.holds(c),
    {
        match self {
            CharClass::WhiteSpace => {
                let n = c as u32;
                (0x09 <= n && n <= 0x0d) || n == 0x20 || n == 0x85 || n == 0xa0 || n == 0x1680
                    || (0x2000 <= n && n <= 0x200a) || n == 0x2028 || n == 0x2029 || n == 0x202f
                    || n == 0x205f || n == 0x3000
            },
            CharClass::Exactly(x) => c == *x,
        }
    }
}

/// `s` with every leading character of class `k` removed.
pub open spec fn strip_front(s: Seq<char>, k: CharClass) -> Seq<char>
    decreases s.len(),
{
    if s.len() > 0 && k.holds(s[0]) {
        strip_front(s.drop_first(), k)
    } else {
        s
    }
}

/// `s` with every trailing character of class `k` removed.
pub open spec fn strip_back(s: Seq<char>, k: CharClass) -> Seq<char>
    decreases s.len(),
{
    if s.len() > 0 && k.holds(s.last()) {
        strip_back(s.drop_last(), k)
    } else {
        s
    }
}

/// What `str::trim` returns.
pub open spec fn trim(s: Seq<char>) -> Seq<char> {
    strip_back(strip_front(s, CharClass::WhiteSpace), CharClass::WhiteSpace)
}

/// What `str::trim_matches(c)` returns for a single character `c`.
pub open spec fn trim_char(s: Seq<char>, c: char) -> Seq<char> {
    strip_back(strip_front(s, CharClass::Exactly(c)), CharClass::Exactly(c))
}

/// `strip_front` keeps a suffix, which begins with no character of the
/// class.
pub proof fn lemma_strip_front_shape(s: Seq<char>, k: CharClass)
    ensures
        strip_front(s, k).len() <= s.len(),
        strip_front(s, k) == s.skip(s.len() - strip_front(s, k).len()),
        strip_front(s, k).len() > 0 ==> !k.holds(strip_front(s, k)[0]),
    decreases s.len(),
{
    if s.len() > 0 && k.holds(s[0]) {
        lemma_strip_front_shape(s.drop_first(), k);
        let r = strip_front(s.drop_first(), k);
        assert(s.drop_first().skip(s.drop_first().len() - r.len()) =~= s.skip(s.len() - r.len()));
    } else {
        assert(s.skip(0) =~= s);
    }
}

/// `strip_back` keeps a prefix, which ends with no character of the class.
pub proof fn lemma_strip_back_shape(s: Seq<char>, k: CharClass)
    ensures
        strip_back(s, k).len() <= s.len(),
        strip_back(s, k) == s.take(strip_back(s, k).len() as int),
        strip_back(s, k).len() > 0 ==> !k.holds(strip_back(s, k).last()),
    decreases s.len(),
{
    if s.len() > 0 && k.holds(s.last()) {
        lemma_strip_back_shape(s.drop_last(), k);
        let r = strip_back(s.drop_last(), k);
        assert(s.drop_last().take(r.len() as int) =~= s.take(r.len() as int));
    } else {
        assert(s.take(s.len() as int) =~= s);
    }
}

/// Trimming twice is trimming once.
pub proof fn lemma_trim_idempotent(s: Seq<char>)
    ensures
        trim(trim(s)) == trim(s),
{
    let f = strip_front(s, CharClass::WhiteSpace);
    let t = strip_back(f, CharClass::WhiteSpace);
    lemma_strip_front_shape(s, CharClass::WhiteSpace);
    lemma_strip_back_shape(f, CharClass::WhiteSpace);
    if t.len() > 0 {
        assert(t[0] == f[0]);
        assert(strip_front(t, CharClass::WhiteSpace) == t);
        assert(strip_back(t, CharClass::WhiteSpace) == t);
    }
}

/// The index where `strip_front` of the window `s[lo..hi]` begins.
pub fn skip_front(s: &Vec<char>, lo: usize, hi: usize, k: CharClass) -> (r: usize)
    requires
        lo <= hi <= s.len(),
    ensures
        lo <= r <= hi,
        s@.subrange(r as int, hi as int) == strip_front(s@.subrange(lo as int, hi as int), k),
{
    let mut i = lo;
    while i < hi && k.test(s[i])
        invariant
            lo <= i <= hi <= s.len(),
            strip_front(s@.subrange(i as int, hi as int), k) == strip_front(
                s@.subrange(lo as int, hi as int),
                k,
            ),
        decreases hi - i,
    {
        assert(s@.subrange(i as int, hi as int).drop_first() =~= s@.subrange(i + 1, hi as int));
        i = i + 1;
    }
    i
}

/// The index where `strip_back` of the window `s[lo..hi]` ends.
pub fn skip_back(s: &Vec<char>, lo: usize, hi: usize, k: CharClass) -> (r: usize)
    requires
        lo <= hi <= s.len(),
    ensures
        lo <= r <= hi,
        s@.subrange(lo as int, r as int) == strip_back(s@.subrange(lo as int, hi as int), k),
{
    let mut j = hi;
    while j > lo && k.test(s[j - 1])
        invariant
            lo <= j <= hi <= s.len(),
            strip_back(s@.subrange(lo as int, j as int), k) == strip_back(
                s@.subrange(lo as int, hi as int),
                k,
            ),
        decreases j - lo,
    {
        assert(s@.subrange(lo as int, j as int).drop_last() =~= s@.subrange(lo as int, j - 1));
        j = j - 1;
    }
    j
}

/// The bounds of `trim` of the window `s[lo..hi]`.
pub fn trim_window(s: &Vec<char>, lo: usize, hi: usize) -> (r: (usize, usize))
    requires
        lo <= hi <= s.len(),
    ensures
        lo <= r.0 <= r.1 <= hi,
        s@.subrange(r.0 as int, r.1 as int) == trim(s@.subrange(lo as int, hi as int)),
{
    let a = skip_front(s, lo, hi, CharClass::WhiteSpace);
    let b = skip_back(s, a, hi, CharClass::WhiteSpace);
    (a, b)
}


/// `p` occurs in `s` at index `i`.
pub open spec fn occurs_at(s: Seq<char>, p: Seq<char>, i: int) -> bool {
    0 <= i && i + p.len() <= s.len() && s.subrange(i, i + p.len()) == p
}

/// `p` is a substring of `s` (`str::contains` with a string pattern).
pub open spec fn has_infix(s: Seq<char>, p: Seq<char>) -> bool {
    exists|i: int| #[trigger] occurs_at(s, p, i)
}

/// `str::starts_with` with a string pattern.
pub open spec fn has_prefix(s: Seq<char>, p: Seq<char>) -> bool {
    occurs_at(s, p, 0)
}

/// `str::ends_with` with a string pattern.
pub open spec fn has_suffix(s: Seq<char>, p: Seq<char>) -> bool {
    occurs_at(s, p, s.len() - p.len())
}

/// The number of occurrences of `c` in `s`.
pub open spec fn count_char(s: Seq<char>, c: char) -> nat
    decreases s.len(),
{
    if s.len() == 0 {
        0
    } else {
        count_char(s.drop_last(), c) + if s.last() == c {
            1nat
        } else {
            0nat
        }
    }
}

/// `i` is the index of the first `c` in `s`.
pub open spec fn is_first_pos(s: Seq<char>, c: char, i: int) -> bool {
    &&& 0 <= i < s.len()
    &&& s[i] == c
    &&& forall|j: int| 0 <= j < i ==> s[j] != c
}

/// `i` is the index of the last `c` in `s`.
pub open spec fn is_last_pos(s: Seq<char>, c: char, i: int) -> bool {
    &&& 0 <= i < s.len()
    &&& s[i] == c
    &&& forall|j: int| i < j < s.len() ==> s[j] != c
}

/// The index of the first `c` in `s` (`str::find`), meaningful when `s`
/// contains `c`.
pub open spec fn first_pos(s: Seq<char>, c: char) -> int
    recommends
        s.contains(c),
{
    choose|i: int| is_first_pos(s, c, i)
}

/// The index of the last `c` in `s` (`str::rfind`), meaningful when `s`
/// contains `c`.
pub open spec fn last_pos(s: Seq<char>, c: char) -> int
    recommends
        s.contains(c),
{
    choose|i: int| is_last_pos(s, c, i)
}

/// The pieces of `s` between occurrences of `sep` (`str::split` with a
/// character): always one more piece than there are separators.
pub open spec fn split_on(s: Seq<char>, sep: char) -> Seq<Seq<char>>
    decreases s.len(),
{
    if s.len() == 0 {
        seq![Seq::empty()]
    } else {
        let parts = split_on(s.drop_last(), sep);
        if s.last() == sep {
            parts.push(Seq::empty())
        } else {
            parts.update(parts.len() - 1, parts.last().push(s.last()))
        }
    }
}

pub proof fn lemma_split_on_nonempty(s: Seq<char>, sep: char)
    ensures
        split_on(s, sep).len() >= 1,
    decreases s.len(),
{
    if s.len() > 0 {
        lemma_split_on_nonempty(s.drop_last(), sep);
    }
}

/// Extending a text by one character either opens a new piece (the
/// character is the separator) or extends the last piece.
pub proof fn lemma_split_on_extend(s: Seq<char>, lo: int, i: int, sep: char)
    requires
        0 <= lo <= i < s.len(),
    ensures
        split_on(s.subrange(lo, i + 1), sep) == (if s[i] == sep {
            split_on(s.subrange(lo, i), sep).push(Seq::empty())
        } else {
            split_on(s.subrange(lo, i), sep).update(
                split_on(s.subrange(lo, i), sep).len() - 1,
                split_on(s.subrange(lo, i), sep).last().push(s[i]),
            )
        }),
{
    assert(s.subrange(lo, i + 1).drop_last() =~= s.subrange(lo, i));
}

/// The pieces completed (all but the last) in a prefix of a text are the
/// first pieces of the whole text.
pub proof fn lemma_split_on_prefix(s: Seq<char>, k: int, m: int, sep: char)
    requires
        0 <= k <= m <= s.len(),
    ensures
        split_on(s.subrange(0, k), sep).len() <= split_on(s.subrange(0, m), sep).len(),
        split_on(s.subrange(0, k), sep).drop_last() == split_on(s.subrange(0, m), sep).take(
            split_on(s.subrange(0, k), sep).len() - 1,
        ),
    decreases m - k,
{
    lemma_split_on_nonempty(s.subrange(0, k), sep);
    if m == k {
        let p = split_on(s.subrange(0, k), sep);
        assert(p.drop_last() =~= p.take(p.len() - 1));
    } else {
        lemma_split_on_prefix(s, k, m - 1, sep);
        lemma_split_on_extend(s, 0, m - 1, sep);
        lemma_split_on_nonempty(s.subrange(0, m - 1), sep);
        let p = split_on(s.subrange(0, k), sep);
        let q = split_on(s.subrange(0, m - 1), sep);
        let q2 = split_on(s.subrange(0, m), sep);
        assert(q.take(p.len() - 1) =~= q2.take(p.len() - 1));
    }
}

pub proof fn lemma_first_pos_unique(s: Seq<char>, c: char, i: int)
    requires
        is_first_pos(s, c, i),
    ensures
        first_pos(s, c) == i,
{
    let k = first_pos(s, c);
    assert(is_first_pos(s, c, k));
    if k < i {
        assert(s[k] != c);
    } else if i < k {
        assert(s[i] != c);
    }
}

pub proof fn lemma_last_pos_unique(s: Seq<char>, c: char, i: int)
    requires
        is_last_pos(s, c, i),
    ensures
        last_pos(s, c) == i,
{
    let k = last_pos(s, c);
    assert(is_last_pos(s, c, k));
    if k < i {
        assert(s[i] != c);
    } else if i < k {
        assert(s[k] != c);
    }
}

/// Whether the window `s[lo..hi]` holds exactly the characters of `p`.
pub fn window_eq(s: &Vec<char>, lo: usize, hi: usize, p: &Vec<char>) -> (b: bool)
    requires
        lo <= hi <= s.len(),
    ensures
        b == (s@.subrange(lo as int, hi as int) == p@),
{
    if hi - lo != p.len() {
        return false;
    }
    let mut k: usize = 0;
    while k < p.len()
        invariant
            lo <= hi <= s.len(),
            hi - lo == p.len(),
            k <= p.len(),
            forall|j: int| 0 <= j < k ==> s@[lo + j] == p@[j],
        decreases p.len() - k,
    {
        if s[lo + k] != p[k] {
            assert(s@.subrange(lo as int, hi as int)[k as int] != p@[k as int]);
            return false;
        }
        k = k + 1;
    }
    assert(s@.subrange(lo as int, hi as int) =~= p@);
    true
}

/// Whether `p` occurs in the window `s[lo..hi]` at offset `i`.
fn occurs_in_window(s: &Vec<char>, lo: usize, hi: usize, p: &Vec<char>, i: usize) -> (b: bool)
    requires
        lo <= hi <= s.len(),
        i <= hi - lo,
    ensures
        b == occurs_at(s@.subrange(lo as int, hi as int), p@, i as int),
{
    if p.len() > hi - lo - i {
        return false;
    }
    let ghost w = s@.subrange(lo as int, hi as int);
    let r = window_eq(s, lo + i, lo + i + p.len(), p);
    assert(w.subrange(i as int, i + p.len()) =~= s@.subrange(lo + i, lo + i + p.len()));
    r
}

/// Whether `p` is a substring of the window `s[lo..hi]`.
pub fn window_has_infix(s: &Vec<char>, lo: usize, hi: usize, p: &Vec<char>) -> (b: bool)
    requires
        lo <= hi <= s.len(),
    ensures
        b == has_infix(s@.subrange(lo as int, hi as int), p@),
{
    let ghost w = s@.subrange(lo as int, hi as int);
    let mut i: usize = 0;
    while i < hi - lo
        invariant
            lo <= hi <= s.len(),
            w == s@.subrange(lo as int, hi as int),
            i <= hi - lo,
            forall|j: int| 0 <= j < i ==> !occurs_at(w, p@, j),
        decreases hi - lo - i,
    {
        if occurs_in_window(s, lo, hi, p, i) {
            return true;
        }
        i = i + 1;
    }
    if occurs_in_window(s, lo, hi, p, hi - lo) {
        return true;
    }
    assert forall|j: int| !(#[trigger] occurs_at(w, p@, j)) by {
        if 0 <= j < i {
        }
    }
    false
}

/// Whether the window `s[lo..hi]` begins with `p`.
pub fn window_has_prefix(s: &Vec<char>, lo: usize, hi: usize, p: &Vec<char>) -> (b: bool)
    requires
        lo <= hi <= s.len(),
    ensures
        b == has_prefix(s@.subrange(lo as int, hi as int), p@),
{
    occurs_in_window(s, lo, hi, p, 0)
}

/// Whether the window `s[lo..hi]` ends with `p`.
pub fn window_has_suffix(s: &Vec<char>, lo: usize, hi: usize, p: &Vec<char>) -> (b: bool)
    requires
        lo <= hi <= s.len(),
    ensures
        b == has_suffix(s@.subrange(lo as int, hi as int), p@),
{
    if p.len() > hi - lo {
        return false;
    }
    occurs_in_window(s, lo, hi, p, hi - lo - p.len())
}

/// The index in `s` of the first `c` of the window `s[lo..hi]`, if any.
pub fn window_find(s: &Vec<char>, lo: usize, hi: usize, c: char) -> (r: Option<usize>)
    requires
        lo <= hi <= s.len(),
    ensures
        match r {
            Some(i) => lo <= i < hi && s@.subrange(lo as int, hi as int).contains(c) && first_pos(
                s@.subrange(lo as int, hi as int),
                c,
            ) == i - lo,
            None => !s@.subrange(lo as int, hi as int).contains(c),
        },
{
    let ghost w = s@.subrange(lo as int, hi as int);
    let mut i = lo;
    while i < hi
        invariant
            lo <= i <= hi <= s.len(),
            w == s@.subrange(lo as int, hi as int),
            forall|j: int| 0 <= j < i - lo ==> w[j] != c,
        decreases hi - i,
    {
        if s[i] == c {
            proof {
                assert(w[i - lo] == c);
                lemma_first_pos_unique(w, c, i - lo);
            }
            return Some(i);
        }
        i = i + 1;
    }
    None
}

/// The index in `s` of the last `c` of the window `s[lo..hi]`, if any.
pub fn window_rfind(s: &Vec<char>, lo: usize, hi: usize, c: char) -> (r: Option<usize>)
    requires
        lo <= hi <= s.len(),
    ensures
        match r {
            Some(i) => lo <= i < hi && s@.subrange(lo as int, hi as int).contains(c) && last_pos(
                s@.subrange(lo as int, hi as int),
                c,
            ) == i - lo,
            None => !s@.subrange(lo as int, hi as int).contains(c),
        },
{
    let ghost w = s@.subrange(lo as int, hi as int);
    let mut j = hi;
    while j > lo
        invariant
            lo <= j <= hi <= s.len(),
            w == s@.subrange(lo as int, hi as int),
            forall|k: int| j - lo <= k < w.len() ==> w[k] != c,
        decreases j - lo,
    {
        if s[j - 1] == c {
            proof {
                assert(w[j - 1 - lo] == c);
                lemma_last_pos_unique(w, c, j - 1 - lo);
            }
            return Some(j - 1);
        }
        j = j - 1;
    }
    None
}

/// The number of occurrences of `c` in the window `s[lo..hi]`.
pub fn window_count(s: &Vec<char>, lo: usize, hi: usize, c: char) -> (n: usize)
    requires
        lo <= hi <= s.len(),
    ensures
        n == count_char(s@.subrange(lo as int, hi as int), c),
{
    let mut n: usize = 0;
    let mut i = lo;
    while i < hi
        invariant
            lo <= i <= hi <= s.len(),
            n == count_char(s@.subrange(lo as int, i as int), c),
            n <= i - lo,
        decreases hi - i,
    {
        assert(s@.subrange(lo as int, i + 1).drop_last() =~= s@.subrange(lo as int, i as int));
        if s[i] == c {
            n = n + 1;
        }
        i = i + 1;
    }
    n
}

/// Appends a character to a string, through `String::push`.
#[verifier::external_body]
fn push_char(s: &mut String, c: char)
    ensures
        final(s)@ == old(s)@.push(c),
{
    s.push(c);
}

/// A string holding the characters of the window `s[lo..hi]`.
pub fn string_of(s: &Vec<char>, lo: usize, hi: usize) -> (r: String)
    requires
        lo <= hi <= s.len(),
    ensures
        r@ == s@.subrange(lo as int, hi as int),
{
    let mut r = String::new();
    let mut i = lo;
    while i < hi
        invariant
            lo <= i <= hi <= s.len(),
            r@ == s@.subrange(lo as int, i as int),
        decreases hi - i,
    {
        push_char(&mut r, s[i]);
        assert(r@ =~= s@.subrange(lo as int, i + 1));
        i = i + 1;
    }
    r
}

/// The characters of `s`, in order.
pub fn chars_of(s: &str) -> (v: Vec<char>)
    ensures
        v@ == s@,
{
    let mut v: Vec<char> = Vec::new();
    for c in it: s.chars()
        invariant
            v@ == it.seq().take(it.index() as int),
    {
        v.push(c);
    }
    v
}

} // verus!
