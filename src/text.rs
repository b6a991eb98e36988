//! Character-level helpers shared by the parser and the argument view:
//! whitespace trimming, searching for a character and comparing text.
use vstd::prelude::*;

verus! {

/// The whitespace that may surround a command line: space, tab, line
/// feed, form feed and carriage return (the ASCII whitespace set).
pub open spec fn is_blank(c: char) -> bool {
    c == ' ' || c == '\t' || c == '\n' || c == '\x0C' || c == '\r'
}

/// Every character of `s` is whitespace.
pub open spec fn all_blank(s: Seq<char>) -> bool {
    forall|k: int| 0 <= k < s.len() ==> is_blank(#[trigger] s[k])
}

/// `s` without its leading whitespace.
pub open spec fn trim_start(s: Seq<char>) -> Seq<char>
    decreases s.len(),
{
    if s.len() > 0 && is_blank(s[0]) {
        trim_start(s.drop_first())
    } else {
        s
    }
}

/// `s` without its trailing whitespace.
pub open spec fn trim_end(s: Seq<char>) -> Seq<char>
    decreases s.len(),
{
    if s.len() > 0 && is_blank(s.last()) {
        trim_end(s.drop_last())
    } else {
        s
    }
}

/// `s` without leading and trailing whitespace.
pub open spec fn trim(s: Seq<char>) -> Seq<char> {
    trim_end(trim_start(s))
}

/// Position of the first `c` in `s`, or `s.len()` when `s` holds none.
pub open spec fn first_index_of<A>(s: Seq<A>, c: A) -> nat
    decreases s.len(),
{
    if s.len() == 0 {
        0
    } else if s[0] == c {
        0
    } else {
        1 + first_index_of(s.drop_first(), c)
    }
}

/// `first_index_of` is the position of the first occurrence, or the
/// length when there is none.
pub proof fn lemma_first_index_of<A>(s: Seq<A>, c: A)
    ensures
        first_index_of(s, c) <= s.len(),
        first_index_of(s, c) < s.len() ==> s[first_index_of(s, c) as int] == c,
        forall|j: int| 0 <= j < first_index_of(s, c) ==> s[j] != c,
    decreases s.len(),
{
    if s.len() > 0 && s[0] != c {
        lemma_first_index_of(s.drop_first(), c);
        assert forall|j: int| 0 <= j < first_index_of(s, c) implies s[j] != c by {
            if j > 0 {
                assert(s[j] == s.drop_first()[j - 1]);
            }
        }
    }
}

/// Leading whitespace never changes what trimming the front leaves.
pub proof fn lemma_trim_start_blank_prefix(w: Seq<char>, x: Seq<char>)
    requires
        all_blank(w),
    ensures
        trim_start(w + x) == trim_start(x),
    decreases w.len(),
{
    if w.len() > 0 {
        assert((w + x).drop_first() =~= w.drop_first() + x);
        lemma_trim_start_blank_prefix(w.drop_first(), x);
    } else {
        assert(w + x =~= x);
    }
}

/// Trailing whitespace never changes what trimming the back leaves.
pub proof fn lemma_trim_end_blank_suffix(x: Seq<char>, w: Seq<char>)
    requires
        all_blank(w),
    ensures
        trim_end(x + w) == trim_end(x),
    decreases w.len(),
{
    if w.len() > 0 {
        assert((x + w).drop_last() =~= x + w.drop_last());
        lemma_trim_end_blank_suffix(x, w.drop_last());
    } else {
        assert(x + w =~= x);
    }
}

/// Trimming the front of `s + w` keeps `w` whole when `s` holds a
/// character that is not whitespace.
pub proof fn lemma_trim_start_append(s: Seq<char>, w: Seq<char>, k: int)
    requires
        0 <= k < s.len(),
        !is_blank(s[k]),
    ensures
        trim_start(s + w) == trim_start(s) + w,
    decreases s.len(),
{
    if is_blank(s[0]) {
        assert((s + w).drop_first() =~= s.drop_first() + w);
        assert(s.drop_first()[k - 1] == s[k]);
        lemma_trim_start_append(s.drop_first(), w, k - 1);
    }
}

/// Whitespace around a line makes no difference to its trimmed form.
pub proof fn lemma_trim_surrounded(w1: Seq<char>, s: Seq<char>, w2: Seq<char>)
    requires
        all_blank(w1),
        all_blank(w2),
    ensures
        trim(w1 + s + w2) == trim(s),
{
    assert(w1 + s + w2 =~= w1 + (s + w2));
    lemma_trim_start_blank_prefix(w1, s + w2);
    if exists|k: int| 0 <= k < s.len() && !is_blank(s[k]) {
        let k = choose|k: int| 0 <= k < s.len() && !is_blank(s[k]);
        lemma_trim_start_append(s, w2, k);
        lemma_trim_end_blank_suffix(trim_start(s), w2);
    } else {
        let e = Seq::<char>::empty();
        assert(all_blank(s + w2));
        assert(s + w2 =~= (s + w2) + e);
        assert(s =~= s + e);
        lemma_trim_start_blank_prefix(s + w2, e);
        lemma_trim_start_blank_prefix(s, e);
    }
}

/// Leading and trailing whitespace of `s` removed.
pub fn trim_str(s: &str) -> (r: &str)
    ensures
        r@ == trim(s@),
{
    let n = s.unicode_len();
    let mut b: usize = 0;
    assert(s@.subrange(0, n as int) =~= s@);
    while b < n
        invariant
            n == s@.len(),
            b <= n,
            trim_start(s@) == trim_start(s@.subrange(b as int, n as int)),
        ensures
            b <= n,
            b < n ==> !is_blank(s@[b as int]),
            trim_start(s@) == trim_start(s@.subrange(b as int, n as int)),
        decreases n - b,
    {
        if !is_blank_char(s.get_char(b)) {
            break;
        }
        assert(s@.subrange(b as int, n as int).drop_first() =~= s@.subrange(b + 1, n as int));
        b = b + 1;
    }
    assert(b < n ==> s@.subrange(b as int, n as int)[0] == s@[b as int]);
    assert(trim_start(s@) =~= s@.subrange(b as int, n as int));
    let mut e: usize = n;
    while e > b
        invariant
            n == s@.len(),
            b <= e <= n,
            trim(s@) == trim_end(s@.subrange(b as int, e as int)),
        ensures
            b <= e <= n,
            e > b ==> !is_blank(s@[e - 1]),
            trim(s@) == trim_end(s@.subrange(b as int, e as int)),
        decreases e,
    {
        if !is_blank_char(s.get_char(e - 1)) {
            break;
        }
        assert(s@.subrange(b as int, e as int).drop_last() =~= s@.subrange(b as int, e - 1));
        e = e - 1;
    }
    assert(e > b ==> s@.subrange(b as int, e as int).last() == s@[e - 1]);
    assert(trim(s@) =~= s@.subrange(b as int, e as int));
    s.substring_char(b, e)
}

/// Whether `c` is whitespace that trimming removes.
pub fn is_blank_char(c: char) -> (r: bool)
    ensures
        r == is_blank(c),
{
    c == ' ' || c == '\t' || c == '\n' || c == '\x0C' || c == '\r'
}

/// Position of the first `c` in `s`, or the length of `s` in characters.
pub fn find_char(s: &str, c: char) -> (p: usize)
    ensures
        p == first_index_of(s@, c),
{
    let n = s.unicode_len();
    let mut k: usize = 0;
    while k < n
        invariant
            n == s@.len(),
            k <= n,
            forall|j: int| 0 <= j < k ==> s@[j] != c,
        ensures
            k <= n,
            k < n ==> s@[k as int] == c,
            forall|j: int| 0 <= j < k ==> s@[j] != c,
        decreases n - k,
    {
        if s.get_char(k) == c {
            break;
        }
        k = k + 1;
    }
    proof {
        lemma_first_index_of(s@, c);
    }
    k
}

/// Whether `a` and `b` hold the same characters.
pub fn same_text(a: &str, b: &str) -> (r: bool)
    ensures
        r == (a@ == b@),
{
    let n = a.unicode_len();
    if n != b.unicode_len() {
        return false;
    }
    let mut k: usize = 0;
    while k < n
        invariant
            n == a@.len(),
            n == b@.len(),
            k <= n,
            forall|j: int| 0 <= j < k ==> a@[j] == b@[j],
        decreases n - k,
    {
        if a.get_char(k) != b.get_char(k) {
            return false;
        }
        k = k + 1;
    }
    assert(a@ =~= b@);
    true
}

} // verus!
