//! Character-level helpers over strings viewed as `Seq<char>`.
use vstd::prelude::*;

verus! {

/// `p` occurs in `s` at index `i`.
pub open spec fn occurs_at(s: Seq<char>, i: int, p: Seq<char>) -> bool {
    0 <= i && i + p.len() <= s.len() && s.subrange(i, i + p.len()) == p
}

/// The first index `>= i` at which `p` occurs in `s`.
pub open spec fn find_from(s: Seq<char>, p: Seq<char>, i: int) -> Option<int>
    decreases s.len() + 1 - i,
{
    if i < 0 || i + p.len() > s.len() {
        None
    } else if occurs_at(s, i, p) {
        Some(i)
    } else {
        find_from(s, p, i + 1)
    }
}

/// `s` holds no occurrence of `p` at all.
pub open spec fn lacks(s: Seq<char>, p: Seq<char>) -> bool {
    forall|m: int| !#[trigger] occurs_at(s, m, p)
}

/// The result of `find_from` lies in range, is an occurrence, and no
/// occurrence between `i` and it was skipped.
pub proof fn lemma_find_from(s: Seq<char>, p: Seq<char>, i: int)
    requires
        0 <= i,
    ensures
        match find_from(s, p, i) {
            Some(k) => i <= k && k + p.len() <= s.len() && occurs_at(s, k, p) && forall|m: int|
                i <= m < k ==> !#[trigger] occurs_at(s, m, p),
            None => forall|m: int| i <= m ==> !#[trigger] occurs_at(s, m, p),
        },
    decreases s.len() + 1 - i,
{
    if i + p.len() > s.len() {
    } else if occurs_at(s, i, p) {
    } else {
        lemma_find_from(s, p, i + 1);
    }
}

/// An occurrence at `k` with none in `[i, k)` is what `find_from` finds.
pub proof fn lemma_find_is(s: Seq<char>, p: Seq<char>, i: int, k: int)
    requires
        0 <= i <= k,
        occurs_at(s, k, p),
        forall|m: int| i <= m < k ==> !#[trigger] occurs_at(s, m, p),
    ensures
        find_from(s, p, i) == Some(k),
    decreases k - i,
{
    if i < k {
        assert(!occurs_at(s, i, p));
        lemma_find_is(s, p, i + 1, k);
    }
}

/// Without any occurrence from `i` on, `find_from` finds nothing.
pub proof fn lemma_find_none(s: Seq<char>, p: Seq<char>, i: int)
    requires
        0 <= i,
        forall|m: int| i <= m ==> !#[trigger] occurs_at(s, m, p),
    ensures
        find_from(s, p, i) is None,
    decreases s.len() + 1 - i,
{
    if i + p.len() <= s.len() {
        assert(!occurs_at(s, i, p));
        lemma_find_none(s, p, i + 1);
    }
}

/// An occurrence in a suffix of `s` is an occurrence in `s`, shifted.
pub proof fn lemma_occurs_shift(s: Seq<char>, p: Seq<char>, a: int, m: int)
    requires
        0 <= a <= s.len(),
        0 <= m,
    ensures
        occurs_at(s.subrange(a, s.len() as int), m, p) == occurs_at(s, a + m, p),
{
    let t = s.subrange(a, s.len() as int);
    if m + p.len() <= t.len() {
        assert(t.subrange(m, m + p.len()) =~= s.subrange(a + m, a + m + p.len()));
    }
}

/// Searching a suffix of `s` finds what searching `s` from the same place finds.
pub proof fn lemma_find_shift(s: Seq<char>, p: Seq<char>, a: int)
    requires
        0 <= a <= s.len(),
    ensures
        match find_from(s, p, a) {
            Some(k) => find_from(s.subrange(a, s.len() as int), p, 0) == Some(k - a),
            None => find_from(s.subrange(a, s.len() as int), p, 0) is None,
        },
{
    let t = s.subrange(a, s.len() as int);
    lemma_find_from(s, p, a);
    assert forall|m: int| 0 <= m implies #[trigger] occurs_at(t, m, p) == occurs_at(s, a + m, p) by {
        lemma_occurs_shift(s, p, a, m);
    }
    match find_from(s, p, a) {
        Some(k) => {
            assert forall|m: int| 0 <= m < k - a implies !#[trigger] occurs_at(t, m, p) by {
                assert(!occurs_at(s, a + m, p));
            }
            lemma_find_is(t, p, 0, k - a);
        },
        None => {
            assert forall|m: int| 0 <= m implies !#[trigger] occurs_at(t, m, p) by {
                assert(!occurs_at(s, a + m, p));
            }
            lemma_find_none(t, p, 0);
        },
    }
}

/// The characters that `char::is_whitespace` accepts (Unicode `White_Space`).
pub open spec fn is_ws(c: char) -> bool {
    let u = c as u32;
    (0x09 <= u <= 0x0d) || u == 0x20 || u == 0x85 || u == 0xa0 || u == 0x1680 || (0x2000 <= u
        <= 0x200a) || u == 0x2028 || u == 0x2029 || u == 0x202f || u == 0x205f || u == 0x3000
}

/// `s` without its leading whitespace.
pub open spec fn trim_start(s: Seq<char>) -> Seq<char>
    decreases s.len(),
{
    if s.len() > 0 && is_ws(s[0]) {
        trim_start(s.drop_first())
    } else {
        s
    }
}

/// `s` without its trailing whitespace.
pub open spec fn trim_end(s: Seq<char>) -> Seq<char>
    decreases s.len(),
{
    if s.len() > 0 && is_ws(s.last()) {
        trim_end(s.drop_last())
    } else {
        s
    }
}

/// `s` without leading and trailing whitespace, as `str::trim` gives it.
pub open spec fn trim(s: Seq<char>) -> Seq<char> {
    trim_end(trim_start(s))
}

pub fn is_whitespace(c: char) -> (r: bool)
    ensures
        r == is_ws(c),
{
    let u = c as u32;
    (0x09 <= u && u <= 0x0d) || u == 0x20 || u == 0x85 || u == 0xa0 || u == 0x1680 || (0x2000
        <= u && u <= 0x200a) || u == 0x2028 || u == 0x2029 || u == 0x202f || u == 0x205f || u
        == 0x3000
}

/// `l` without one trailing carriage return.
pub open spec fn strip_cr(l: Seq<char>) -> Seq<char> {
    if l.len() > 0 && l.last() == '\r' {
        l.drop_last()
    } else {
        l
    }
}

/// The lines of `s` as `str::lines` yields them: split at each `'\n'`, a
/// `'\r'` just before that `'\n'` removed, and no empty line after a final
/// newline. A last line that no `'\n'` ends is kept as it is.
pub open spec fn lines(s: Seq<char>) -> Seq<Seq<char>>
    decreases s.len(),
{
    if s.len() == 0 {
        seq![]
    } else {
        match find_from(s, seq!['\n'], 0) {
            Some(i) => if 0 <= i < s.len() {
                seq![strip_cr(s.subrange(0, i))] + lines(s.subrange(i + 1, s.len() as int))
            } else {
                seq![]
            },
            None => seq![s],
        }
    }
}

/// Copies the characters of `s` into a vector.
pub fn chars_of(s: &str) -> (r: Vec<char>)
    ensures
        r@ == s@,
{
    let mut r: Vec<char> = Vec::new();
    for c in it: s.chars()
        invariant
            r@ == it.seq().take(it.index() as int),
    {
        r.push(c);
    }
    r
}

/// The characters of `s` from `from` to `to`, as a new string.
pub fn substring(s: &str, from: usize, to: usize) -> (r: String)
    requires
        from <= to <= s@.len(),
    ensures
        r@ == s@.subrange(from as int, to as int),
{
    s.substring_char(from, to).to_owned()
}

/// `l` without one trailing carriage return.
pub fn strip_cr_of(l: &str) -> (r: String)
    ensures
        r@ == strip_cr(l@),
{
    let n = l.unicode_len();
    if n > 0 && l.get_char(n - 1) == '\r' {
        substring(l, 0, n - 1)
    } else {
        l.to_owned()
    }
}

/// The lines of `s`, as `str::lines` yields them.
pub fn split_lines(s: &str) -> (r: Vec<String>)
    ensures
        r@.map_values(|l: String| l@) == lines(s@),
{
    let chars = chars_of(s);
    let newline: Vec<char> = vec!['\n'];
    assert(newline@ =~= seq!['\n']);
    let n = chars.len();
    let mut out: Vec<String> = Vec::new();
    let mut start: usize = 0;
    assert(s@.subrange(0, n as int) =~= s@);
    assert(out@.map_values(|l: String| l@) =~= Seq::<Seq<char>>::empty());
    assert(Seq::<Seq<char>>::empty() + lines(s@) =~= lines(s@));
    while start < n
        invariant
            chars@ == s@,
            newline@ == seq!['\n'],
            n == chars.len(),
            start <= n,
            out@.map_values(|l: String| l@) + lines(s@.subrange(start as int, n as int)) == lines(
                s@,
            ),
        decreases n - start,
    {
        let ghost rest = s@.subrange(start as int, n as int);
        proof {
            lemma_find_shift(s@, seq!['\n'], start as int);
            lemma_find_from(s@, seq!['\n'], start as int);
        }
        match find(&chars, &newline, start) {
            Some(k) => {
                let line = strip_cr_of(&substring(s, start, k));
                proof {
                    assert(rest.subrange(0, k - start) =~= s@.subrange(start as int, k as int));
                    assert(rest.subrange(k - start + 1, rest.len() as int) =~= s@.subrange(
                        k + 1,
                        n as int,
                    ));
                }
                let ghost before = out@.map_values(|l: String| l@);
                out.push(line);
                start = k + 1;
                proof {
                    assert(out@.map_values(|l: String| l@) =~= before.push(line@));
                    assert(before.push(line@) + lines(s@.subrange(start as int, n as int)) =~= before
                        + lines(rest));
                }
            },
            None => {
                let line = substring(s, start, n);
                let ghost before = out@.map_values(|l: String| l@);
                out.push(line);
                start = n;
                proof {
                    assert(out@.map_values(|l: String| l@) =~= before.push(line@));
                    assert(s@.subrange(n as int, n as int) =~= Seq::<char>::empty());
                    assert(before.push(line@) + lines(s@.subrange(n as int, n as int)) =~= before
                        + lines(rest));
                }
            },
        }
    }
    assert(s@.subrange(n as int, n as int) =~= Seq::<char>::empty());
    assert(out@.map_values(|l: String| l@) =~= lines(s@));
    out
}

/// Whether `p` occurs in `s` at index `i`.
pub fn matches_at(s: &Vec<char>, i: usize, p: &Vec<char>) -> (r: bool)
    ensures
        r == occurs_at(s@, i as int, p@),
{
    if p.len() > s.len() || i > s.len() - p.len() {
        return false;
    }
    let mut j: usize = 0;
    while j < p.len()
        invariant
            j <= p.len(),
            i + p.len() <= s.len(),
            forall|k: int| 0 <= k < j ==> s@[i + k] == p@[k],
        decreases p.len() - j,
    {
        if s[i + j] != p[j] {
            assert(s@.subrange(i as int, i + p.len())[j as int] != p@[j as int]);
            return false;
        }
        j = j + 1;
    }
    assert(s@.subrange(i as int, i + p.len()) =~= p@);
    true
}

/// The first index `>= start` at which `p` occurs in `s`.
pub fn find(s: &Vec<char>, p: &Vec<char>, start: usize) -> (r: Option<usize>)
    ensures
        match r {
            Some(k) => find_from(s@, p@, start as int) == Some(k as int),
            None => find_from(s@, p@, start as int) is None,
        },
{
    let mut i: usize = start;
    while i <= s.len() && p.len() <= s.len() - i
        invariant
            start <= i,
            find_from(s@, p@, start as int) == find_from(s@, p@, i as int),
        decreases s.len() + 1 - i,
    {
        if matches_at(s, i, p) {
            return Some(i);
        }
        assert(p@.len() > 0) by {
            if p@.len() == 0 {
                assert(s@.subrange(i as int, i as int) =~= p@);
            }
        }
        i = i + 1;
    }
    None
}

/// The positions bounding `trim(s[lo..hi])`.
pub fn trim_bounds(s: &Vec<char>, lo: usize, hi: usize) -> (r: (usize, usize))
    requires
        lo <= hi <= s.len(),
    ensures
        lo <= r.0 <= r.1 <= hi,
        s@.subrange(r.0 as int, r.1 as int) == trim(s@.subrange(lo as int, hi as int)),
{
    let mut a: usize = lo;
    while a < hi && is_whitespace(s[a])
        invariant
            lo <= a <= hi <= s.len(),
            trim_start(s@.subrange(a as int, hi as int)) == trim_start(
                s@.subrange(lo as int, hi as int),
            ),
        decreases hi - a,
    {
        assert(s@.subrange(a as int, hi as int).drop_first() =~= s@.subrange(a + 1, hi as int));
        a = a + 1;
    }
    let mut b: usize = hi;
    while b > a && is_whitespace(s[b - 1])
        invariant
            lo <= a <= b <= hi <= s.len(),
            trim_end(s@.subrange(a as int, b as int)) == trim_end(s@.subrange(a as int, hi as int)),
        decreases b - a,
    {
        assert(s@.subrange(a as int, b as int).drop_last() =~= s@.subrange(a as int, b - 1));
        b = b - 1;
    }
    (a, b)
}

} // verus!
