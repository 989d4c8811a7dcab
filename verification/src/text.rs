//! Character-level text handling: the string operations the shell's
//! line-oriented formats are built on, each stated over `Seq<char>`.
use vstd::prelude::*;

verus! {

// ---------------------------------------------------------------------------
// Character classes
// ---------------------------------------------------------------------------

/// ASCII letters and digits.
pub open spec fn is_ascii_alnum(c: char) -> bool {
    ('0' <= c && c <= '9') || ('a' <= c && c <= 'z') || ('A' <= c && c <= 'Z')
}

/// ASCII upper-case letters.
pub open spec fn is_ascii_upper(c: char) -> bool {
    'A' <= c && c <= 'Z'
}

/// The character with ASCII upper-case letters mapped to lower case.
pub open spec fn ascii_lower(c: char) -> char {
    if is_ascii_upper(c) {
        ((c as u32) + 32) as char
    } else {
        c
    }
}

/// `s` with every ASCII upper-case letter mapped to lower case.
pub open spec fn ascii_lower_seq(s: Seq<char>) -> Seq<char> {
    Seq::new(s.len(), |i: int| ascii_lower(s[i]))
}

/// Unicode `White_Space`, the class that `char::is_whitespace` and `str::trim` use.
pub open spec fn is_ws(c: char) -> bool {
    let u = c as u32;
    (0x09 <= u && u <= 0x0d) || u == 0x20 || u == 0x85 || u == 0xa0 || u == 0x1680 || (0x2000
        <= u && u <= 0x200a) || u == 0x2028 || u == 0x2029 || u == 0x202f || u == 0x205f || u
        == 0x3000
}

/// ASCII white space: space, tab, line feed, form feed, carriage return.
pub open spec fn is_ascii_ws(c: char) -> bool {
    c == ' ' || c == '\t' || c == '\n' || c == '\x0C' || c == '\r'
}

pub fn ascii_alnum(c: char) -> (r: bool)
    ensures
        r == is_ascii_alnum(c),
{
    ('0' <= c && c <= '9') || ('a' <= c && c <= 'z') || ('A' <= c && c <= 'Z')
}

pub fn to_ascii_lower(c: char) -> (r: char)
    ensures
        r == ascii_lower(c),
{
    if 'A' <= c && c <= 'Z' {
        let u = (c as u32) + 32;
        assert(0x61 <= u <= 0x7a);
        let b = u as u8;
        let r = b as char;
        assert(r == ((c as u32) + 32) as char);
        r
    } else {
        c
    }
}

pub fn whitespace(c: char) -> (r: bool)
    ensures
        r == is_ws(c),
{
    let u = c as u32;
    (0x09 <= u && u <= 0x0d) || u == 0x20 || u == 0x85 || u == 0xa0 || u == 0x1680 || (0x2000
        <= u && u <= 0x200a) || u == 0x2028 || u == 0x2029 || u == 0x202f || u == 0x205f || u
        == 0x3000
}

pub fn ascii_whitespace(c: char) -> (r: bool)
    ensures
        r == is_ascii_ws(c),
{
    c == ' ' || c == '\t' || c == '\n' || c == '\x0C' || c == '\r'
}

// ---------------------------------------------------------------------------
// Conversions
// ---------------------------------------------------------------------------

/// Copies the characters of `s` into a vector.
pub fn chars_of(s: &str) -> (v: Vec<char>)
    ensures
        v@ == s@,
{
    let mut v: Vec<char> = Vec::new();
    for c in it: s.chars()
        invariant
            it.seq() == s@,
            v@ == it.seq().take(it.index() as int),
    {
        v.push(c);
        assert(v@ =~= it.seq().take(it.index() + 1));
    }
    v
}

/// Appends one character to a string (`String::push`).
#[verifier::external_body]
pub(crate) fn push_char(s: &mut String, c: char)
    ensures
        final(s)@ == old(s)@.push(c),
{
    s.push(c);
}

/// The string holding the characters of `v`.
pub fn string_of(v: &Vec<char>) -> (s: String)
    ensures
        s@ == v@,
{
    let mut s = String::new();
    for i in 0..v.len()
        invariant
            s@ == v@.take(i as int),
    {
        push_char(&mut s, v[i]);
        assert(s@ =~= v@.take(i + 1));
    }
    assert(v@.take(v@.len() as int) =~= v@);
    s
}

/// A copy of `v[lo..hi]`.
pub fn slice_vec(v: &Vec<char>, lo: usize, hi: usize) -> (r: Vec<char>)
    requires
        lo <= hi <= v.len(),
    ensures
        r@ == v@.subrange(lo as int, hi as int),
{
    let mut r: Vec<char> = Vec::new();
    let mut i = lo;
    while i < hi
        invariant
            lo <= i <= hi <= v.len(),
            r@ == v@.subrange(lo as int, i as int),
        decreases hi - i,
    {
        r.push(v[i]);
        assert(r@ =~= v@.subrange(lo as int, i + 1));
        i += 1;
    }
    r
}

/// Appends the characters of `b` to `a`.
pub fn extend_chars(a: &mut Vec<char>, b: &Vec<char>)
    ensures
        final(a)@ == old(a)@ + b@,
{
    for i in 0..b.len()
        invariant
            a@ == old(a)@ + b@.take(i as int),
    {
        a.push(b[i]);
        assert(a@ =~= old(a)@ + b@.take(i + 1));
    }
    assert(b@.take(b@.len() as int) =~= b@);
}

/// Equality of two character vectors.
pub fn chars_eq(a: &Vec<char>, b: &Vec<char>) -> (r: bool)
    ensures
        r == (a@ == b@),
{
    if a.len() != b.len() {
        return false;
    }
    for i in 0..a.len()
        invariant
            a@.len() == b@.len(),
            forall|j: int| 0 <= j < i ==> a@[j] == b@[j],
    {
        if a[i] != b[i] {
            return false;
        }
    }
    assert(a@ =~= b@);
    true
}

/// Equality of a character vector with the characters of a string.
pub fn chars_eq_str(a: &Vec<char>, b: &str) -> (r: bool)
    ensures
        r == (a@ == b@),
{
    let bv = chars_of(b);
    chars_eq(a, &bv)
}

/// Equality of two strings.
pub fn str_eq(a: &str, b: &str) -> (r: bool)
    ensures
        r == (a@ == b@),
{
    let av = chars_of(a);
    let bv = chars_of(b);
    chars_eq(&av, &bv)
}

// ---------------------------------------------------------------------------
// Searching
// ---------------------------------------------------------------------------

/// Index of the first `c` in `s` at or after `i`, or `s.len()` when there is none.
pub open spec fn find_from(s: Seq<char>, c: char, i: int) -> int
    decreases s.len() - i,
{
    if i >= s.len() {
        s.len() as int
    } else if s[i] == c {
        i
    } else {
        find_from(s, c, i + 1)
    }
}

pub proof fn lemma_find_from(s: Seq<char>, c: char, i: int, m: int)
    requires
        0 <= i <= m <= s.len(),
        forall|j: int| i <= j < m ==> s[j] != c,
        m == s.len() || s[m] == c,
    ensures
        find_from(s, c, i) == m,
    decreases m - i,
{
    if i < m {
        lemma_find_from(s, c, i + 1, m);
    }
}

pub proof fn lemma_find_from_bounds(s: Seq<char>, c: char, i: int)
    requires
        0 <= i,
    ensures
        i <= find_from(s, c, i) <= s.len() || (i > s.len() && find_from(s, c, i) == s.len()),
        find_from(s, c, i) < s.len() ==> s[find_from(s, c, i)] == c,
        forall|j: int| i <= j < find_from(s, c, i) ==> s[j] != c,
    decreases s.len() - i,
{
    if i < s.len() && s[i] != c {
        lemma_find_from_bounds(s, c, i + 1);
    }
}

/// Finds the first `c` in `v` at or after `from`.
pub fn find_char(v: &Vec<char>, c: char, from: usize) -> (k: usize)
    requires
        from <= v.len(),
    ensures
        k as int == find_from(v@, c, from as int),
        from <= k <= v.len(),
{
    let mut k = from;
    while k < v.len() && v[k] != c
        invariant
            from <= k <= v.len(),
            forall|j: int| from <= j < k ==> v@[j] != c,
        decreases v.len() - k,
    {
        k += 1;
    }
    proof {
        lemma_find_from(v@, c, from as int, k as int);
    }
    k
}

/// `s` starts with `p`.
pub open spec fn starts_with(s: Seq<char>, p: Seq<char>) -> bool {
    p.len() <= s.len() && s.take(p.len() as int) == p
}

/// `s` ends with `p`.
pub open spec fn ends_with(s: Seq<char>, p: Seq<char>) -> bool {
    p.len() <= s.len() && s.skip(s.len() - p.len()) == p
}

/// `p` occurs in `s` at `i`.
pub open spec fn occurs_at(s: Seq<char>, p: Seq<char>, i: int) -> bool {
    0 <= i && i + p.len() <= s.len() && s.subrange(i, i + p.len()) == p
}

/// `p` occurs somewhere in `s`.
pub open spec fn contains(s: Seq<char>, p: Seq<char>) -> bool {
    exists|i: int| occurs_at(s, p, i)
}

/// Whether `p` occurs in `v` at position `i`.
pub fn matches_at(v: &Vec<char>, p: &Vec<char>, i: usize) -> (r: bool)
    ensures
        r == occurs_at(v@, p@, i as int),
{
    if i > v.len() || p.len() > v.len() - i {
        return false;
    }
    let n = v.len();
    let mut j: usize = 0;
    while j < p.len()
        invariant
            n == v@.len(),
            i + p@.len() <= v@.len(),
            j <= p@.len(),
            forall|t: int| 0 <= t < j ==> v@[i + t] == p@[t],
        decreases p@.len() - j,
    {
        if v[i + j] != p[j] {
            assert(v@.subrange(i as int, i + p@.len())[j as int] != p@[j as int]);
            return false;
        }
        j += 1;
    }
    assert(v@.subrange(i as int, i + p@.len()) =~= p@);
    true
}

/// Whether `v` starts with `p`.
pub fn starts_with_chars(v: &Vec<char>, p: &Vec<char>) -> (r: bool)
    ensures
        r == starts_with(v@, p@),
{
    let r = matches_at(v, p, 0);
    proof {
        if p@.len() <= v@.len() {
            assert(v@.subrange(0, p@.len() as int) =~= v@.take(p@.len() as int));
        }
    }
    r
}

/// Whether `v` ends with `p`.
pub fn ends_with_chars(v: &Vec<char>, p: &Vec<char>) -> (r: bool)
    ensures
        r == ends_with(v@, p@),
{
    if p.len() > v.len() {
        return false;
    }
    let r = matches_at(v, p, v.len() - p.len());
    assert(v@.subrange(v@.len() - p@.len(), v@.len() as int) =~= v@.skip(v@.len() - p@.len()));
    r
}

/// Whether `p` occurs in `v`.
pub fn contains_chars(v: &Vec<char>, p: &Vec<char>) -> (r: bool)
    ensures
        r == contains(v@, p@),
{
    if p.len() > v.len() {
        return false;
    }
    let last = v.len() - p.len();
    let mut i: usize = 0;
    loop
        invariant
            last + p@.len() == v@.len(),
            i <= last,
            forall|t: int| 0 <= t < i ==> !occurs_at(v@, p@, t),
        ensures
            forall|t: int| 0 <= t <= last ==> !occurs_at(v@, p@, t),
        decreases last - i,
    {
        if matches_at(v, p, i) {
            return true;
        }
        if i == last {
            break;
        }
        i += 1;
    }
    assert forall|t: int| !occurs_at(v@, p@, t) by {
        if 0 <= t && t + p@.len() <= v@.len() {
            assert(t <= last);
        }
    }
    false
}

// ---------------------------------------------------------------------------
// Case folding
// ---------------------------------------------------------------------------

/// `a` and `b` agree up to ASCII case (`str::eq_ignore_ascii_case`).
pub open spec fn eq_ignore_ascii_case(a: Seq<char>, b: Seq<char>) -> bool {
    a.len() == b.len() && forall|i: int| 0 <= i < a.len() ==> ascii_lower(a[i]) == ascii_lower(b[i])
}

pub fn eq_ignore_case_chars(a: &Vec<char>, b: &Vec<char>) -> (r: bool)
    ensures
        r == eq_ignore_ascii_case(a@, b@),
{
    if a.len() != b.len() {
        return false;
    }
    for i in 0..a.len()
        invariant
            a@.len() == b@.len(),
            forall|j: int| 0 <= j < i ==> ascii_lower(a@[j]) == ascii_lower(b@[j]),
    {
        if to_ascii_lower(a[i]) != to_ascii_lower(b[i]) {
            return false;
        }
    }
    true
}

/// `a` equals the literal `b` up to ASCII case.
pub fn eq_ignore_case_str(a: &Vec<char>, b: &str) -> (r: bool)
    ensures
        r == eq_ignore_ascii_case(a@, b@),
{
    let bv = chars_of(b);
    eq_ignore_case_chars(a, &bv)
}

/// `str::to_ascii_lowercase`.
pub fn ascii_lowercase(v: &Vec<char>) -> (r: Vec<char>)
    ensures
        r@ == ascii_lower_seq(v@),
{
    let mut r: Vec<char> = Vec::new();
    for i in 0..v.len()
        invariant
            r@ == ascii_lower_seq(v@.take(i as int)),
    {
        r.push(to_ascii_lower(v[i]));
        assert(r@ =~= ascii_lower_seq(v@.take(i + 1)));
    }
    assert(v@.take(v@.len() as int) =~= v@);
    r
}

// ---------------------------------------------------------------------------
// Trimming
// ---------------------------------------------------------------------------

/// `s` without its leading white space.
pub open spec fn trim_start(s: Seq<char>) -> Seq<char>
    decreases s.len(),
{
    if s.len() > 0 && is_ws(s[0]) {
        trim_start(s.drop_first())
    } else {
        s
    }
}

/// `s` without its trailing white space.
pub open spec fn trim_end(s: Seq<char>) -> Seq<char>
    decreases s.len(),
{
    if s.len() > 0 && is_ws(s.last()) {
        trim_end(s.drop_last())
    } else {
        s
    }
}

/// `str::trim`: `s` without leading and trailing white space.
pub open spec fn trim(s: Seq<char>) -> Seq<char> {
    trim_end(trim_start(s))
}

/// `str::trim`.
pub fn trim_chars(v: &Vec<char>) -> (r: Vec<char>)
    ensures
        r@ == trim(v@),
{
    let n = v.len();
    let mut lo: usize = 0;
    assert(v@.subrange(0, n as int) =~= v@);
    while lo < n && whitespace(v[lo])
        invariant
            lo <= n == v@.len(),
            trim_start(v@) == trim_start(v@.subrange(lo as int, n as int)),
        decreases n - lo,
    {
        assert(v@.subrange(lo as int, n as int).drop_first() =~= v@.subrange(lo + 1, n as int));
        lo += 1;
    }
    assert(trim_start(v@) == v@.subrange(lo as int, n as int));
    let mut hi: usize = n;
    while hi > lo && whitespace(v[hi - 1])
        invariant
            lo <= hi <= n == v@.len(),
            trim_end(v@.subrange(lo as int, n as int)) == trim_end(
                v@.subrange(lo as int, hi as int),
            ),
        decreases hi,
    {
        assert(v@.subrange(lo as int, hi as int).drop_last() =~= v@.subrange(lo as int, hi - 1));
        hi -= 1;
    }
    slice_vec(v, lo, hi)
}

// ---------------------------------------------------------------------------
// Splitting and joining
// ---------------------------------------------------------------------------

/// `s` without one trailing carriage return.
pub open spec fn strip_cr(s: Seq<char>) -> Seq<char> {
    if s.len() > 0 && s.last() == '\r' {
        s.drop_last()
    } else {
        s
    }
}

/// `str::lines`: the pieces between line feeds, each without the carriage
/// return of a `\r\n` ending; a final line ending adds no empty line.
pub open spec fn lines(s: Seq<char>) -> Seq<Seq<char>>
    decreases s.len(),
{
    if s.len() == 0 {
        seq![]
    } else {
        let k = find_from(s, '\n', 0);
        if k >= s.len() {
            seq![s]
        } else {
            proof {
                lemma_find_from_bounds(s, '\n', 0);
            }
            seq![strip_cr(s.take(k))] + lines(s.skip(k + 1))
        }
    }
}

/// `str::split_once` on a character.
pub open spec fn split_once(s: Seq<char>, c: char) -> Option<(Seq<char>, Seq<char>)> {
    let k = find_from(s, c, 0);
    if k < s.len() {
        Some((s.take(k), s.skip(k + 1)))
    } else {
        None
    }
}

/// `s.split(c).filter(|p| !p.is_empty())`: the non-empty pieces between the `c`s.
pub open spec fn split_nonempty(s: Seq<char>, c: char) -> Seq<Seq<char>>
    decreases s.len(),
{
    if s.len() == 0 {
        seq![]
    } else {
        let k = find_from(s, c, 0);
        if k >= s.len() {
            seq![s]
        } else {
            proof {
                lemma_find_from_bounds(s, c, 0);
            }
            if k == 0 {
                split_nonempty(s.skip(1), c)
            } else {
                seq![s.take(k)] + split_nonempty(s.skip(k + 1), c)
            }
        }
    }
}

/// The pieces of `v`, as vectors.
pub open spec fn views(v: Seq<Vec<char>>) -> Seq<Seq<char>> {
    Seq::new(v.len(), |i: int| v[i]@)
}

/// `str::lines`.
pub fn lines_of(v: &Vec<char>) -> (out: Vec<Vec<char>>)
    ensures
        views(out@) == lines(v@),
{
    let n = v.len();
    let mut out: Vec<Vec<char>> = Vec::new();
    let mut start: usize = 0;
    assert(v@.skip(0) =~= v@);
    while start < n
        invariant
            n == v@.len(),
            start <= n,
            lines(v@) == views(out@) + lines(v@.skip(start as int)),
        decreases n - start,
    {
        let k = find_char(v, '\n', start);
        let ghost rest = v@.skip(start as int);
        proof {
            lemma_find_from_bounds(v@, '\n', start as int);
            lemma_find_from(rest, '\n', 0, k - start);
        }
        if k == n {
            assert(rest =~= v@.subrange(start as int, n as int));
            let line = slice_vec(v, start, n);
            let ghost old_out = out@;
            out.push(line);
            assert(views(out@) =~= views(old_out) + seq![rest]);
            assert(v@.skip(n as int) =~= Seq::<char>::empty());
            start = n;
        } else {
            let mut end = k;
            if end > start && v[end - 1] == '\r' {
                end = end - 1;
            }
            assert(rest.take(k - start) =~= v@.subrange(start as int, k as int));
            assert(strip_cr(rest.take(k - start)) =~= v@.subrange(start as int, end as int));
            let line = slice_vec(v, start, end);
            let ghost old_out = out@;
            out.push(line);
            assert(views(out@) =~= views(old_out) + seq![strip_cr(rest.take(k - start))]);
            assert(rest.skip(k - start + 1) =~= v@.skip(k + 1));
            start = k + 1;
        }
    }
    assert(v@.skip(start as int) =~= Seq::<char>::empty());
    assert(views(out@) + Seq::<Seq<char>>::empty() =~= views(out@));
    out
}

/// `str::split_once` on a character.
pub fn split_once_chars(v: &Vec<char>, c: char) -> (r: Option<(Vec<char>, Vec<char>)>)
    ensures
        match (r, split_once(v@, c)) {
            (Some((a, b)), Some((x, y))) => a@ == x && b@ == y,
            (None, None) => true,
            _ => false,
        },
{
    let k = find_char(v, c, 0);
    if k < v.len() {
        let a = slice_vec(v, 0, k);
        let b = slice_vec(v, k + 1, v.len());
        assert(a@ =~= v@.take(k as int));
        assert(b@ =~= v@.skip(k + 1));
        Some((a, b))
    } else {
        None
    }
}

/// `s.split(c).filter(|p| !p.is_empty())`.
pub fn split_nonempty_chars(v: &Vec<char>, c: char) -> (out: Vec<Vec<char>>)
    ensures
        views(out@) == split_nonempty(v@, c),
{
    let n = v.len();
    let mut out: Vec<Vec<char>> = Vec::new();
    let mut start: usize = 0;
    assert(v@.skip(0) =~= v@);
    while start < n
        invariant
            n == v@.len(),
            start <= n,
            split_nonempty(v@, c) == views(out@) + split_nonempty(v@.skip(start as int), c),
        decreases n - start,
    {
        let k = find_char(v, c, start);
        let ghost rest = v@.skip(start as int);
        proof {
            lemma_find_from_bounds(v@, c, start as int);
            lemma_find_from(rest, c, 0, k - start);
        }
        if k == n {
            assert(rest =~= v@.subrange(start as int, n as int));
            let piece = slice_vec(v, start, n);
            let ghost old_out = out@;
            out.push(piece);
            assert(views(out@) =~= views(old_out) + seq![rest]);
            assert(v@.skip(n as int) =~= Seq::<char>::empty());
            start = n;
        } else {
            assert(rest.skip(k - start + 1) =~= v@.skip(k + 1));
            if k > start {
                assert(rest.take(k - start) =~= v@.subrange(start as int, k as int));
                let piece = slice_vec(v, start, k);
                let ghost old_out = out@;
                out.push(piece);
                assert(views(out@) =~= views(old_out) + seq![rest.take(k - start)]);
            }
            start = k + 1;
        }
    }
    assert(v@.skip(start as int) =~= Seq::<char>::empty());
    assert(views(out@) + Seq::<Seq<char>>::empty() =~= views(out@));
    out
}

/// Whether some piece of `a` equals some piece of `b`.
pub open spec fn share_piece(a: Seq<Seq<char>>, b: Seq<Seq<char>>) -> bool {
    exists|i: int, j: int| 0 <= i < a.len() && 0 <= j < b.len() && a[i] == b[j]
}

pub fn share_piece_vecs(a: &Vec<Vec<char>>, b: &Vec<Vec<char>>) -> (r: bool)
    ensures
        r == share_piece(views(a@), views(b@)),
{
    for i in 0..a.len()
        invariant
            forall|x: int, y: int|
                0 <= x < i && 0 <= y < b@.len() ==> views(a@)[x] != views(b@)[y],
    {
        for j in 0..b.len()
            invariant
                i < a@.len(),
                forall|x: int, y: int|
                    0 <= x < i && 0 <= y < b@.len() ==> views(a@)[x] != views(b@)[y],
                forall|y: int| 0 <= y < j ==> views(a@)[i as int] != views(b@)[y],
        {
            if chars_eq(&a[i], &b[j]) {
                assert(views(a@)[i as int] == views(b@)[j as int]);
                return true;
            }
        }
    }
    false
}

/// Index of the first white space at or after `i`, or `s.len()`.
pub open spec fn find_ws_from(s: Seq<char>, i: int, ascii: bool) -> int
    decreases s.len() - i,
{
    if i >= s.len() {
        s.len() as int
    } else if (if ascii { is_ascii_ws(s[i]) } else { is_ws(s[i]) }) {
        i
    } else {
        find_ws_from(s, i + 1, ascii)
    }
}

pub proof fn lemma_find_ws_from(s: Seq<char>, i: int, m: int, ascii: bool)
    requires
        0 <= i <= m <= s.len(),
        forall|j: int|
            i <= j < m ==> !(if ascii {
                is_ascii_ws(s[j])
            } else {
                is_ws(s[j])
            }),
        m == s.len() || (if ascii {
            is_ascii_ws(s[m])
        } else {
            is_ws(s[m])
        }),
    ensures
        find_ws_from(s, i, ascii) == m,
    decreases m - i,
{
    if i < m {
        lemma_find_ws_from(s, i + 1, m, ascii);
    }
}

pub proof fn lemma_find_ws_from_bounds(s: Seq<char>, i: int, ascii: bool)
    requires
        0 <= i <= s.len(),
    ensures
        i <= find_ws_from(s, i, ascii) <= s.len(),
    decreases s.len() - i,
{
    if i < s.len() && !(if ascii {
        is_ascii_ws(s[i])
    } else {
        is_ws(s[i])
    }) {
        lemma_find_ws_from_bounds(s, i + 1, ascii);
    }
}

/// `str::split_whitespace` (Unicode white space) or, with `ascii`,
/// `str::split_ascii_whitespace`: the non-empty runs between white space.
pub open spec fn words(s: Seq<char>, ascii: bool) -> Seq<Seq<char>>
    decreases s.len(),
{
    if s.len() == 0 {
        seq![]
    } else if (if ascii {
        is_ascii_ws(s[0])
    } else {
        is_ws(s[0])
    }) {
        words(s.drop_first(), ascii)
    } else {
        let k = find_ws_from(s, 0, ascii);
        proof {
            lemma_find_ws_from_bounds(s, 0, ascii);
            lemma_find_ws_from_bounds(s, 1, ascii);
            assert(find_ws_from(s, 0, ascii) == find_ws_from(s, 1, ascii));
        }
        seq![s.take(k)] + words(s.skip(k), ascii)
    }
}

fn is_sep(c: char, ascii: bool) -> (r: bool)
    ensures
        r == (if ascii {
            is_ascii_ws(c)
        } else {
            is_ws(c)
        }),
{
    if ascii {
        ascii_whitespace(c)
    } else {
        whitespace(c)
    }
}

/// `str::split_whitespace` / `str::split_ascii_whitespace`.
pub fn words_of(v: &Vec<char>, ascii: bool) -> (out: Vec<Vec<char>>)
    ensures
        views(out@) == words(v@, ascii),
{
    let n = v.len();
    let mut out: Vec<Vec<char>> = Vec::new();
    let mut start: usize = 0;
    assert(v@.skip(0) =~= v@);
    while start < n
        invariant
            n == v@.len(),
            start <= n,
            words(v@, ascii) == views(out@) + words(v@.skip(start as int), ascii),
        decreases n - start,
    {
        let ghost rest = v@.skip(start as int);
        if is_sep(v[start], ascii) {
            assert(rest.drop_first() =~= v@.skip(start + 1));
            start += 1;
        } else {
            let mut k = start + 1;
            while k < n && !is_sep(v[k], ascii)
                invariant
                    n == v@.len(),
                    start < k <= n,
                    forall|j: int|
                        start <= j < k ==> !(if ascii {
                            is_ascii_ws(v@[j])
                        } else {
                            is_ws(v@[j])
                        }),
                decreases n - k,
            {
                k += 1;
            }
            proof {
                lemma_find_ws_from(rest, 0, k - start, ascii);
            }
            assert(rest.take(k - start) =~= v@.subrange(start as int, k as int));
            let word = slice_vec(v, start, k);
            let ghost old_out = out@;
            out.push(word);
            assert(views(out@) =~= views(old_out) + seq![rest.take(k - start)]);
            assert(rest.skip(k - start) =~= v@.skip(k as int));
            start = k;
        }
    }
    assert(v@.skip(start as int) =~= Seq::<char>::empty());
    assert(views(out@) + Seq::<Seq<char>>::empty() =~= views(out@));
    out
}

/// The pieces joined with single spaces (`[&str]::join(" ")`).
pub open spec fn join_spaced(parts: Seq<Seq<char>>) -> Seq<char>
    decreases parts.len(),
{
    if parts.len() == 0 {
        seq![]
    } else if parts.len() == 1 {
        parts[0]
    } else {
        join_spaced(parts.drop_last()) + seq![' '] + parts.last()
    }
}

/// Joins `parts[from..]` with single spaces.
pub fn join_spaced_from(parts: &Vec<Vec<char>>, from: usize) -> (r: Vec<char>)
    requires
        from <= parts.len(),
    ensures
        r@ == join_spaced(views(parts@).skip(from as int)),
{
    let mut r: Vec<char> = Vec::new();
    let mut i = from;
    let ghost ps = views(parts@).skip(from as int);
    assert(ps.take(0) =~= Seq::<Seq<char>>::empty());
    while i < parts.len()
        invariant
            from <= i <= parts@.len(),
            ps == views(parts@).skip(from as int),
            r@ == join_spaced(ps.take(i - from)),
        decreases parts@.len() - i,
    {
        if i > from {
            r.push(' ');
        }
        extend_chars(&mut r, &parts[i]);
        assert(ps.take(i + 1 - from).drop_last() =~= ps.take(i - from));
        i += 1;
    }
    assert(ps.take(i - from) =~= ps);
    r
}

/// `s` with every non-overlapping occurrence of `p`, scanned from the left,
/// replaced by `r` (`str::replace`).
pub open spec fn replace_all(s: Seq<char>, p: Seq<char>, r: Seq<char>) -> Seq<char>
    decreases s.len(),
{
    if p.len() == 0 || s.len() < p.len() {
        s
    } else if s.take(p.len() as int) == p {
        r + replace_all(s.skip(p.len() as int), p, r)
    } else {
        seq![s[0]] + replace_all(s.drop_first(), p, r)
    }
}

/// `str::replace`.
pub fn replace_all_chars(s: &Vec<char>, p: &Vec<char>, r: &Vec<char>) -> (out: Vec<char>)
    requires
        p.len() > 0,
    ensures
        out@ == replace_all(s@, p@, r@),
{
    let n = s.len();
    let m = p.len();
    let mut out: Vec<char> = Vec::new();
    let mut i: usize = 0;
    assert(s@.skip(0) =~= s@);
    while i < n && m <= n - i
        invariant
            n == s@.len(),
            m == p@.len() > 0,
            i <= n,
            replace_all(s@, p@, r@) == out@ + replace_all(s@.skip(i as int), p@, r@),
        decreases n - i,
    {
        let ghost rest = s@.skip(i as int);
        if matches_at(s, p, i) {
            assert(rest.take(m as int) =~= s@.subrange(i as int, i + m));
            assert(rest.skip(m as int) =~= s@.skip(i + m));
            let ghost old_out = out@;
            extend_chars(&mut out, r);
            assert(out@ + replace_all(s@.skip(i + m), p@, r@) =~= old_out + (r@ + replace_all(
                rest.skip(m as int),
                p@,
                r@,
            )));
            i = i + m;
        } else {
            assert(rest.take(m as int) != p@) by {
                if rest.take(m as int) == p@ {
                    assert(s@.subrange(i as int, i + m) =~= rest.take(m as int));
                }
            }
            assert(rest.drop_first() =~= s@.skip(i + 1));
            let ghost old_out = out@;
            out.push(s[i]);
            assert(out@ + replace_all(s@.skip(i + 1), p@, r@) =~= old_out + (seq![rest[0]]
                + replace_all(rest.drop_first(), p@, r@)));
            i = i + 1;
        }
    }
    let tail = slice_vec(s, i, n);
    assert(tail@ =~= s@.skip(i as int));
    extend_chars(&mut out, &tail);
    out
}

// ---------------------------------------------------------------------------
// Numbers
// ---------------------------------------------------------------------------

/// The decimal digit for `d < 10`.
pub open spec fn digit_char(d: nat) -> char {
    ((48 + d) as u32) as char
}

/// Decimal notation of `n`, without leading zeros.
pub open spec fn decimal(n: nat) -> Seq<char>
    decreases n,
{
    if n < 10 {
        seq![digit_char(n)]
    } else {
        decimal(n / 10).push(digit_char(n % 10))
    }
}

/// Decimal notation of `n` (`usize::to_string`).
pub fn decimal_chars(n: usize) -> (r: Vec<char>)
    ensures
        r@ == decimal(n as nat),
    decreases n,
{
    let d = (n % 10) as u8;
    let c = (48u8 + d) as char;
    assert(c == digit_char((n % 10) as nat));
    if n < 10 {
        let mut r: Vec<char> = Vec::new();
        r.push(c);
        assert(r@ =~= seq![digit_char(n as nat)]);
        r
    } else {
        let mut r = decimal_chars(n / 10);
        r.push(c);
        r
    }
}

// ---------------------------------------------------------------------------
// Ordering
// ---------------------------------------------------------------------------

/// Lexicographic order on characters by code point; for strings this is the
/// order of `Ord for str`, since UTF-8 keeps code point order.
pub open spec fn lex_le(a: Seq<char>, b: Seq<char>) -> bool
    decreases a.len(),
{
    if a.len() == 0 {
        true
    } else if b.len() == 0 {
        false
    } else if (a[0] as u32) < (b[0] as u32) {
        true
    } else if (a[0] as u32) > (b[0] as u32) {
        false
    } else {
        lex_le(a.drop_first(), b.drop_first())
    }
}

pub proof fn lemma_lex_total(a: Seq<char>, b: Seq<char>)
    ensures
        lex_le(a, b) || lex_le(b, a),
    decreases a.len(),
{
    if a.len() > 0 && b.len() > 0 && (a[0] as u32) == (b[0] as u32) {
        lemma_lex_total(a.drop_first(), b.drop_first());
    }
}

pub proof fn lemma_lex_trans(a: Seq<char>, b: Seq<char>, c: Seq<char>)
    requires
        lex_le(a, b),
        lex_le(b, c),
    ensures
        lex_le(a, c),
    decreases a.len(),
{
    if a.len() > 0 && b.len() > 0 && c.len() > 0 && (a[0] as u32) == (b[0] as u32) && (b[0] as u32)
        == (c[0] as u32) {
        lemma_lex_trans(a.drop_first(), b.drop_first(), c.drop_first());
    }
}

pub proof fn lemma_lex_antisym(a: Seq<char>, b: Seq<char>)
    requires
        lex_le(a, b),
        lex_le(b, a),
    ensures
        a == b,
    decreases a.len(),
{
    if a.len() > 0 && b.len() > 0 {
        lemma_lex_antisym(a.drop_first(), b.drop_first());
        assert((a[0] as u32) == (b[0] as u32));
        assert(a[0] == b[0]) by {
            vstd::utf8::char_u32_cast(a[0], a[0] as u32);
            vstd::utf8::char_u32_cast(b[0], b[0] as u32);
        }
        assert(a =~= seq![a[0]] + a.drop_first());
        assert(b =~= seq![b[0]] + b.drop_first());
    }
}

pub proof fn lemma_lex_refl(a: Seq<char>)
    ensures
        lex_le(a, a),
    decreases a.len(),
{
    if a.len() > 0 {
        lemma_lex_refl(a.drop_first());
    }
}

/// Whether `a <= b` in lexicographic order.
pub fn lex_le_chars(a: &Vec<char>, b: &Vec<char>) -> (r: bool)
    ensures
        r == lex_le(a@, b@),
{
    let mut i: usize = 0;
    assert(a@.skip(0) =~= a@);
    assert(b@.skip(0) =~= b@);
    loop
        invariant
            i <= a@.len(),
            i <= b@.len(),
            lex_le(a@, b@) == lex_le(a@.skip(i as int), b@.skip(i as int)),
        decreases a@.len() - i,
    {
        if i == a.len() {
            return true;
        }
        if i == b.len() {
            return false;
        }
        let x = a[i] as u32;
        let y = b[i] as u32;
        if x < y {
            return true;
        }
        if x > y {
            return false;
        }
        assert(a@.skip(i as int).drop_first() =~= a@.skip(i + 1));
        assert(b@.skip(i as int).drop_first() =~= b@.skip(i + 1));
        i += 1;
    }
}

// ---------------------------------------------------------------------------
// Unicode case folding
// ---------------------------------------------------------------------------

/// What `str::to_lowercase` gives for `s`: the full Unicode lower-case
/// mapping, which depends on `s` alone.
pub uninterp spec fn unicode_lowercase(s: Seq<char>) -> Seq<char>;

/// `str::to_lowercase`. The contract names the result; it does not restate
/// the Unicode case tables.
#[verifier::external_body]
pub(crate) fn to_lowercase_chars(s: &str) -> (r: Vec<char>)
    ensures
        r@ == unicode_lowercase(s@),
{
    s.to_lowercase().chars().collect()
}

// ---------------------------------------------------------------------------
// Trimming a given character
// ---------------------------------------------------------------------------

/// `s` without leading `c`s.
pub open spec fn trim_char_start(s: Seq<char>, c: char) -> Seq<char>
    decreases s.len(),
{
    if s.len() > 0 && s[0] == c {
        trim_char_start(s.drop_first(), c)
    } else {
        s
    }
}

/// `s` without trailing `c`s.
pub open spec fn trim_char_end(s: Seq<char>, c: char) -> Seq<char>
    decreases s.len(),
{
    if s.len() > 0 && s.last() == c {
        trim_char_end(s.drop_last(), c)
    } else {
        s
    }
}

/// `str::trim_matches(c)`.
pub open spec fn trim_char(s: Seq<char>, c: char) -> Seq<char> {
    trim_char_end(trim_char_start(s, c), c)
}

/// `str::trim_start_matches(c)`.
pub fn trim_start_char(v: &Vec<char>, c: char) -> (r: Vec<char>)
    ensures
        r@ == trim_char_start(v@, c),
{
    let n = v.len();
    let mut lo: usize = 0;
    assert(v@.subrange(0, n as int) =~= v@);
    while lo < n && v[lo] == c
        invariant
            lo <= n == v@.len(),
            trim_char_start(v@, c) == trim_char_start(v@.subrange(lo as int, n as int), c),
        decreases n - lo,
    {
        assert(v@.subrange(lo as int, n as int).drop_first() =~= v@.subrange(lo + 1, n as int));
        lo += 1;
    }
    slice_vec(v, lo, n)
}

/// `str::trim_matches(c)`.
pub fn trim_char_chars(v: &Vec<char>, c: char) -> (r: Vec<char>)
    ensures
        r@ == trim_char(v@, c),
{
    let w = trim_start_char(v, c);
    let n = w.len();
    let mut hi: usize = n;
    assert(w@.subrange(0, n as int) =~= w@);
    while hi > 0 && w[hi - 1] == c
        invariant
            hi <= n == w@.len(),
            trim_char_end(w@, c) == trim_char_end(w@.subrange(0, hi as int), c),
        decreases hi,
    {
        assert(w@.subrange(0, hi as int).drop_last() =~= w@.subrange(0, hi - 1));
        hi -= 1;
    }
    slice_vec(&w, 0, hi)
}


/// ASCII lower case of a byte.
pub open spec fn ascii_lower_byte(b: u8) -> u8 {
    if 65 <= b <= 90 {
        (b + 32) as u8
    } else {
        b
    }
}

/// Byte strings equal up to ASCII case (`<[u8]>::eq_ignore_ascii_case`).
pub open spec fn bytes_eq_ignore_ascii_case(a: Seq<u8>, b: Seq<u8>) -> bool {
    a.len() == b.len() && forall|i: int| 0 <= i < a.len() ==> ascii_lower_byte(a[i]) == ascii_lower_byte(b[i])
}

/// `s` without the prefix `p` compared up to ASCII case on the UTF-8
/// bytes: the text after as many bytes as `p` has, when `s` is at least
/// that long and its first bytes equal those of `p` up to ASCII case.
pub open spec fn strip_prefix_ascii_case(s: Seq<char>, p: Seq<char>) -> Option<Seq<char>> {
    let b = vstd::utf8::encode_utf8(s);
    let q = vstd::utf8::encode_utf8(p);
    if b.len() >= q.len() && bytes_eq_ignore_ascii_case(b.take(q.len() as int), q) {
        Some(vstd::utf8::decode_utf8(b.skip(q.len() as int)))
    } else {
        None
    }
}

/// `s` can be cut after as many bytes as `p` has: it is shorter, or a
/// character of `s` starts there.
pub open spec fn strip_sliceable(s: Seq<char>, p: Seq<char>) -> bool {
    let b = vstd::utf8::encode_utf8(s);
    let q = vstd::utf8::encode_utf8(p);
    b.len() >= q.len() ==> vstd::utf8::is_char_boundary(b, q.len() as int)
}

fn lower_byte(b: u8) -> (r: u8)
    ensures
        r == ascii_lower_byte(b),
{
    if 65 <= b && b <= 90 {
        b + 32
    } else {
        b
    }
}

/// Strips `prefix` from the start of `s`, comparing the bytes up to ASCII
/// case; the rest of `s`, or none when it does not start so.
pub fn strip_prefix_ignore_ascii_case<'a>(s: &'a str, prefix: &str) -> (r: Option<&'a str>)
    requires
        strip_sliceable(s@, prefix@),
    ensures
        match r {
            Some(t) => strip_prefix_ascii_case(s@, prefix@) == Some(t@),
            None => strip_prefix_ascii_case(s@, prefix@) is None,
        },
{
    let b = s.as_bytes();
    let q = prefix.as_bytes();
    if b.len() < q.len() {
        return None;
    }
    let mut i: usize = 0;
    let mut eq = true;
    while i < q.len() && eq
        invariant
            i <= q@.len() <= b@.len(),
            eq == forall|j: int| 0 <= j < i ==> ascii_lower_byte(b@[j]) == ascii_lower_byte(q@[j]),
        decreases q@.len() - i,
    {
        eq = lower_byte(b[i]) == lower_byte(q[i]);
        i = i + 1;
    }
    let ghost bs = vstd::utf8::encode_utf8(s@);
    let ghost qs = vstd::utf8::encode_utf8(prefix@);
    assert(b@ == bs && q@ == qs);
    if !eq {
        assert(!bytes_eq_ignore_ascii_case(bs.take(qs.len() as int), qs)) by {
            let j = choose|j: int| 0 <= j < i && !(ascii_lower_byte(b@[j]) == ascii_lower_byte(q@[j]));
            assert(bs.take(qs.len() as int)[j] == bs[j]);
        }
        return None;
    }
    assert(bytes_eq_ignore_ascii_case(bs.take(qs.len() as int), qs)) by {
        assert forall|j: int| 0 <= j < qs.len() implies ascii_lower_byte(bs.take(qs.len() as int)[j])
            == ascii_lower_byte(qs[j]) by {
            assert(bs.take(qs.len() as int)[j] == bs[j]);
        }
    }
    let (_, rest) = s.split_at(q.len());
    proof {
        assert(vstd::utf8::encode_utf8(rest@) =~= bs.skip(qs.len() as int));
        vstd::utf8::encode_utf8_decode_utf8(rest@);
    }
    Some(rest)
}

} // verus!
