use vstd::prelude::*;

verus! {

/// The characters that `char::is_whitespace` accepts: those with the
/// Unicode `White_Space` property.
pub open spec fn is_ws(c: char) -> bool {
    ||| ('\u{9}' <= c && c <= '\u{d}')
    ||| c == ' '
    ||| c == '\u{85}'
    ||| c == '\u{a0}'
    ||| c == '\u{1680}'
    ||| ('\u{2000}' <= c && c <= '\u{200a}')
    ||| c == '\u{2028}'
    ||| c == '\u{2029}'
    ||| c == '\u{202f}'
    ||| c == '\u{205f}'
    ||| c == '\u{3000}'
}

/// Whether `c` is whitespace, as `is_ws` states it.
pub fn is_whitespace(c: char) -> (r: bool)
    ensures
        r == is_ws(c),
{
    ('\u{9}' <= c && c <= '\u{d}') || c == ' ' || c == '\u{85}' || c == '\u{a0}' || c
        == '\u{1680}' || ('\u{2000}' <= c && c <= '\u{200a}') || c == '\u{2028}' || c
        == '\u{2029}' || c == '\u{202f}' || c == '\u{205f}' || c == '\u{3000}'
}


/// The marker between a key and its expression: `" <- "`.
pub open spec fn delimiter() -> Seq<char> {
    seq![' ', '<', '-', ' ']
}

/// Whether the delimiter starts at position `i` of `s`.
pub open spec fn delim_at(s: Seq<char>, i: int) -> bool {
    0 <= i && i + 4 <= s.len() && s.subrange(i, i + 4) == delimiter()
}

/// Whether the delimiter occurs anywhere in `s`.
pub open spec fn holds_delim(s: Seq<char>) -> bool {
    exists|i: int| delim_at(s, i)
}

/// The first position at or after `lo` where the delimiter starts.
pub open spec fn find_from(s: Seq<char>, lo: int) -> Option<int>
    decreases s.len() - lo,
{
    if lo < 0 || lo + 4 > s.len() {
        None
    } else if delim_at(s, lo) {
        Some(lo)
    } else {
        find_from(s, lo + 1)
    }
}

/// The pieces of `s` between the delimiters, taken from the left without
/// overlap, as `str::split` cuts them.
pub open spec fn split_parts(s: Seq<char>) -> Seq<Seq<char>>
    decreases s.len(),
{
    match find_from(s, 0) {
        Some(i) => if 0 <= i && i + 4 <= s.len() {
            seq![s.take(i)] + split_parts(s.skip(i + 4))
        } else {
            seq![s]
        },
        None => seq![s],
    }
}

/// `s` without its leading whitespace.
pub open spec fn trim_start(s: Seq<char>) -> Seq<char>
    decreases s.len(),
{
    if s.len() > 0 && is_ws(s[0]) {
        trim_start(s.drop_first())
    } else {
        s
    }
}

/// `s` without its trailing whitespace.
pub open spec fn trim_end(s: Seq<char>) -> Seq<char>
    decreases s.len(),
{
    if s.len() > 0 && is_ws(s.last()) {
        trim_end(s.drop_last())
    } else {
        s
    }
}

/// `s` without surrounding whitespace.
pub open spec fn trim(s: Seq<char>) -> Seq<char> {
    trim_end(trim_start(s))
}

pub proof fn lemma_find_from_bounds(s: Seq<char>, lo: int)
    requires
        0 <= lo,
    ensures
        match find_from(s, lo) {
            Some(i) => lo <= i && delim_at(s, i) && forall|j: int|
                lo <= j < i ==> !delim_at(s, j),
            None => forall|j: int| lo <= j ==> !delim_at(s, j),
        },
    decreases s.len() - lo,
{
    if lo + 4 <= s.len() && !delim_at(s, lo) {
        lemma_find_from_bounds(s, lo + 1);
    }
}


/// Searching `s` from `lo` finds what searching its suffix from the start
/// finds, shifted by `lo`.
pub proof fn lemma_find_from_skip(s: Seq<char>, lo: int)
    requires
        0 <= lo <= s.len(),
    ensures
        find_from(s, lo) == match find_from(s.skip(lo), 0) {
            Some(i) => Some(i + lo),
            None => None::<int>,
        },
{
    let t = s.skip(lo);
    assert forall|j: int| 0 <= j implies delim_at(t, j) == delim_at(s, j + lo) by {
        if j + 4 <= t.len() {
            assert(t.subrange(j, j + 4) =~= s.subrange(j + lo, j + lo + 4));
        }
    }
    lemma_find_from_bounds(s, lo);
    lemma_find_from_bounds(t, 0);
    match find_from(s, lo) {
        Some(i) => {
            match find_from(t, 0) {
                Some(k) => {
                    assert(delim_at(t, k) && delim_at(s, k + lo));
                    assert(delim_at(s, i) && delim_at(t, i - lo));
                },
                None => {
                    assert(delim_at(t, i - lo));
                },
            }
        },
        None => {
            match find_from(t, 0) {
                Some(k) => {
                    assert(delim_at(s, k + lo));
                },
                None => {},
            }
        },
    }
}

/// A text splits into one piece exactly when it holds no delimiter.
pub proof fn lemma_split_single(s: Seq<char>)
    ensures
        split_parts(s).len() >= 1,
        split_parts(s).len() == 1 <==> find_from(s, 0) is None,
        find_from(s, 0) is None <==> !holds_delim(s),
    decreases s.len(),
{
    lemma_find_from_bounds(s, 0);
    match find_from(s, 0) {
        Some(i) => {
            lemma_split_single(s.skip(i + 4));
        },
        None => {},
    }
}

/// A text splits into two pieces exactly when a second search, after the
/// first delimiter, finds nothing; the pieces are what lies around it.
pub proof fn lemma_split_pair(s: Seq<char>)
    ensures
        split_parts(s).len() == 2 <==> (find_from(s, 0) is Some && find_from(
            s,
            find_from(s, 0)->Some_0 + 4,
        ) is None),
        split_parts(s).len() == 2 ==> split_parts(s)[0] == s.take(find_from(s, 0)->Some_0)
            && split_parts(s)[1] == s.skip(find_from(s, 0)->Some_0 + 4),
{
    lemma_find_from_bounds(s, 0);
    lemma_split_single(s);
    match find_from(s, 0) {
        Some(i) => {
            let t = s.skip(i + 4);
            lemma_split_single(t);
            lemma_find_from_skip(s, i + 4);
            assert(split_parts(s) == seq![s.take(i)] + split_parts(t));
            if split_parts(t).len() == 1 {
                assert(split_parts(t) == seq![t]);
            }
        },
        None => {},
    }
}

/// The first position at or after `lo` where the delimiter starts in `v`.
pub fn find_delimiter(v: &Vec<char>, lo: usize) -> (r: Option<usize>)
    ensures
        match r {
            Some(i) => find_from(v@, lo as int) == Some(i as int),
            None => find_from(v@, lo as int) is None,
        },
{
    let n = v.len();
    let mut i: usize = lo;
    while i < n && n - i >= 4
        invariant
            n == v@.len(),
            lo <= i,
            find_from(v@, lo as int) == find_from(v@, i as int),
        decreases n - i,
    {
        if v[i] == ' ' && v[i + 1] == '<' && v[i + 2] == '-' && v[i + 3] == ' ' {
            assert(v@.subrange(i as int, i + 4) =~= delimiter());
            return Some(i);
        }
        assert(!delim_at(v@, i as int));
        i = i + 1;
    }
    None
}

/// The characters of `v` from `lo` up to `hi`, without surrounding whitespace.
pub fn trimmed(v: &Vec<char>, lo: usize, hi: usize) -> (r: Vec<char>)
    requires
        lo <= hi <= v@.len(),
    ensures
        r@ == trim(v@.subrange(lo as int, hi as int)),
{
    let mut a: usize = lo;
    while a < hi && is_whitespace(v[a])
        invariant
            lo <= a <= hi <= v@.len(),
            trim_start(v@.subrange(a as int, hi as int)) == trim_start(
                v@.subrange(lo as int, hi as int),
            ),
        decreases hi - a,
    {
        assert(v@.subrange(a as int, hi as int).drop_first() =~= v@.subrange(a + 1, hi as int));
        a = a + 1;
    }
    let mut b: usize = hi;
    while b > a && is_whitespace(v[b - 1])
        invariant
            lo <= a <= b <= hi <= v@.len(),
            trim_start(v@.subrange(a as int, hi as int)) == v@.subrange(a as int, hi as int),
            trim_end(v@.subrange(a as int, b as int)) == trim_end(
                v@.subrange(a as int, hi as int),
            ),
        decreases b - a,
    {
        assert(v@.subrange(a as int, b as int).drop_last() =~= v@.subrange(a as int, b - 1));
        b = b - 1;
    }
    let mut r: Vec<char> = Vec::new();
    let mut k: usize = a;
    while k < b
        invariant
            a <= k <= b <= v@.len(),
            r@ == v@.subrange(a as int, k as int),
        decreases b - k,
    {
        r.push(v[k]);
        assert(r@ =~= v@.subrange(a as int, k + 1));
        k = k + 1;
    }
    r
}


/// The characters of `s`, in order.
pub fn chars_of(s: &str) -> (r: Vec<char>)
    ensures
        r@ == s@,
{
    let mut r: Vec<char> = Vec::new();
    for c in it: s.chars()
        invariant
            it.seq() == s@,
            r@ == it.seq().take(it.index() as int),
    {
        r.push(c);
    }
    r
}

/// Relies on `String`'s `FromIterator<&char>`: the string holds the
/// characters of `v`, in order.
#[verifier::external_body]
pub(crate) fn string_of(v: &Vec<char>) -> (r: String)
    ensures
        r@ == v@,
{
    String::from_iter(v.iter())
}

} // verus!
