//! Character-level text primitives: white space, trimming, splitting and
//! searching, each with a mathematical model over `Seq<char>`.

use vstd::prelude::*;

verus! {

/// `String::push` appends exactly one character to the end of the string.
pub assume_specification[ String::push ](s: &mut String, c: char)
    ensures
        final(s)@ == old(s)@.push(c),
;

/// Whether `c` carries the Unicode `White_Space` property.
pub open spec fn is_space(c: char) -> bool {
    let n = c as int;
    ||| 0x09 <= n <= 0x0D
    ||| n == 0x20
    ||| n == 0x85
    ||| n == 0xA0
    ||| n == 0x1680
    ||| 0x2000 <= n <= 0x200A
    ||| n == 0x2028
    ||| n == 0x2029
    ||| n == 0x202F
    ||| n == 0x205F
    ||| n == 0x3000
}

/// `c` with an ASCII capital letter replaced by its small letter.
pub open spec fn lower(c: char) -> char {
    if 0x41 <= c as int <= 0x5A {
        ((c as int + 0x20) as u8) as char
    } else {
        c
    }
}

/// `s` with every ASCII capital letter replaced by its small letter.
pub open spec fn lowercase(s: Seq<char>) -> Seq<char> {
    Seq::new(s.len(), |i: int| lower(s[i]))
}

/// `s` without its leading white space.
pub open spec fn trim_start(s: Seq<char>) -> Seq<char>
    decreases s.len(),
{
    if s.len() > 0 && is_space(s[0]) {
        trim_start(s.drop_first())
    } else {
        s
    }
}

/// `s` without its trailing white space.
pub open spec fn trim_end(s: Seq<char>) -> Seq<char>
    decreases s.len(),
{
    if s.len() > 0 && is_space(s.last()) {
        trim_end(s.drop_last())
    } else {
        s
    }
}

/// `s` without leading and trailing white space.
pub open spec fn trim(s: Seq<char>) -> Seq<char> {
    trim_end(trim_start(s))
}

/// The position of the first `c` in `s`, or `s.len()` where there is none.
pub open spec fn find_char(s: Seq<char>, c: char) -> int
    decreases s.len(),
{
    if s.len() == 0 || s[0] == c {
        0
    } else {
        1 + find_char(s.drop_first(), c)
    }
}

/// The position of the first white space in `s`, or `s.len()` where there is
/// none.
pub open spec fn find_space(s: Seq<char>) -> int
    decreases s.len(),
{
    if s.len() == 0 || is_space(s[0]) {
        0
    } else {
        1 + find_space(s.drop_first())
    }
}

/// The pieces of `s` between occurrences of `sep`: one more piece than there
/// are separators, empty pieces included.
pub open spec fn split(s: Seq<char>, sep: char) -> Seq<Seq<char>>
    decreases s.len(),
{
    let k = find_char(s, sep);
    if 0 <= k < s.len() {
        seq![s.take(k)] + split(s.skip(k + 1), sep)
    } else {
        seq![s]
    }
}

/// `s` without one trailing carriage return, if it has one.
pub open spec fn strip_cr(s: Seq<char>) -> Seq<char> {
    if s.len() > 0 && s.last() == '\r' {
        s.drop_last()
    } else {
        s
    }
}

/// The lines of `s`. A line ends at a line feed; the line feed, and a
/// carriage return directly before it, are not part of the line. Text after
/// the last line feed is a line of its own unless it is empty.
pub open spec fn lines(s: Seq<char>) -> Seq<Seq<char>>
    decreases s.len(),
{
    let k = find_char(s, '\n');
    if s.len() == 0 {
        seq![]
    } else if 0 <= k < s.len() {
        seq![strip_cr(s.take(k))] + lines(s.skip(k + 1))
    } else {
        seq![s]
    }
}

/// The maximal runs of characters of `s` that are not white space, in order.
pub open spec fn words(s: Seq<char>) -> Seq<Seq<char>>
    decreases s.len(),
{
    let k = find_space(s);
    if s.len() == 0 {
        seq![]
    } else if is_space(s[0]) {
        words(s.drop_first())
    } else if 0 < k <= s.len() {
        seq![s.take(k)] + words(s.skip(k))
    } else {
        seq![]
    }
}

/// Whether `s` begins with `prefix`.
pub open spec fn starts_with(s: Seq<char>, prefix: Seq<char>) -> bool {
    prefix.len() <= s.len() && s.take(prefix.len() as int) == prefix
}

/// Whether `s` ends with `suffix`.
pub open spec fn ends_with(s: Seq<char>, suffix: Seq<char>) -> bool {
    suffix.len() <= s.len() && s.skip(s.len() - suffix.len()) == suffix
}

/// Whether `needle` occurs in `s` as a contiguous run.
pub open spec fn contains_run(s: Seq<char>, needle: Seq<char>) -> bool {
    exists|i: int| 0 <= i <= s.len() - needle.len() && #[trigger] s.subrange(i, i + needle.len()) == needle
}

/// The characters of `s`, in order.
pub fn to_chars(s: &str) -> (v: Vec<char>)
    ensures
        v@ == s@,
{
    let mut v: Vec<char> = Vec::new();
    for c in it: s.chars()
        invariant
            it.seq() == s@,
            v@ == it.seq().take(it.index()),
    {
        v.push(c);
        assert(it.seq().take(it.index() + 1) == it.seq().take(it.index()).push(c));
    }
    assert(s@.take(s@.len() as int) == s@);
    v
}

/// Appends the characters `v[from..to]` to `out`.
pub fn push_range(out: &mut String, v: &Vec<char>, from: usize, to: usize)
    requires
        from <= to <= v.len(),
    ensures
        final(out)@ == old(out)@ + v@.subrange(from as int, to as int),
{
    let mut i: usize = from;
    while i < to
        invariant
            from <= i <= to <= v.len(),
            out@ == old(out)@ + v@.subrange(from as int, i as int),
        decreases to - i,
    {
        out.push(v[i]);
        i += 1;
        assert(v@.subrange(from as int, i as int) == v@.subrange(from as int, i - 1).push(
            v@[i - 1],
        ));
    }
}

/// The string made of the characters of `v`.
pub fn from_chars(v: &Vec<char>) -> (s: String)
    ensures
        s@ == v@,
{
    let mut s = String::new();
    push_range(&mut s, v, 0, v.len());
    assert(v@.subrange(0, v.len() as int) == v@);
    s
}

/// A copy of `v[from..to]`.
pub fn slice_chars(v: &Vec<char>, from: usize, to: usize) -> (r: Vec<char>)
    requires
        from <= to <= v.len(),
    ensures
        r@ == v@.subrange(from as int, to as int),
{
    let mut r: Vec<char> = Vec::new();
    let mut i: usize = from;
    while i < to
        invariant
            from <= i <= to <= v.len(),
            r@ == v@.subrange(from as int, i as int),
        decreases to - i,
    {
        r.push(v[i]);
        i += 1;
    }
    r
}

/// Whether `c` is white space.
pub fn is_space_char(c: char) -> (b: bool)
    ensures
        b == is_space(c),
{
    let n: u32 = c as u32;
    (0x09 <= n && n <= 0x0D) || n == 0x20 || n == 0x85 || n == 0xA0 || n == 0x1680 || (0x2000 <= n
        && n <= 0x200A) || n == 0x2028 || n == 0x2029 || n == 0x202F || n == 0x205F || n == 0x3000
}

/// `c` in ASCII lower case.
pub fn lower_char(c: char) -> (r: char)
    ensures
        r == lower(c),
{
    let n: u32 = c as u32;
    if 0x41 <= n && n <= 0x5A {
        let b: u8 = (n + 0x20) as u8;
        b as char
    } else {
        c
    }
}

/// `v` in ASCII lower case.
pub fn lowercase_chars(v: &Vec<char>) -> (r: Vec<char>)
    ensures
        r@ == lowercase(v@),
{
    let mut r: Vec<char> = Vec::new();
    let mut i: usize = 0;
    while i < v.len()
        invariant
            i <= v.len(),
            r@ == lowercase(v@).take(i as int),
        decreases v.len() - i,
    {
        r.push(lower_char(v[i]));
        i += 1;
    }
    r
}

/// The views of a vector of character vectors, piece by piece.
pub open spec fn views(v: Seq<Vec<char>>) -> Seq<Seq<char>> {
    Seq::new(v.len(), |i: int| v[i]@)
}

/// `find_char` is the one position that holds `c` with no `c` before it.
pub proof fn lemma_find_char(s: Seq<char>, c: char, k: int)
    requires
        0 <= k <= s.len(),
        forall|j: int| 0 <= j < k ==> s[j] != c,
        k < s.len() ==> s[k] == c,
    ensures
        find_char(s, c) == k,
    decreases k,
{
    if k > 0 {
        lemma_find_char(s.drop_first(), c, k - 1);
    }
}

/// `find_space` is the one position that holds white space with none before
/// it.
pub proof fn lemma_find_space(s: Seq<char>, k: int)
    requires
        0 <= k <= s.len(),
        forall|j: int| 0 <= j < k ==> !is_space(s[j]),
        k < s.len() ==> is_space(s[k]),
    ensures
        find_space(s) == k,
    decreases k,
{
    if k > 0 {
        lemma_find_space(s.drop_first(), k - 1);
    }
}

/// The first position at or after `from` where `v` holds `c`, or `v.len()`.
pub fn find_from(v: &Vec<char>, from: usize, c: char) -> (k: usize)
    requires
        from <= v.len(),
    ensures
        from <= k <= v.len(),
        k - from == find_char(v@.skip(from as int), c),
        forall|j: int| from <= j < k ==> v@[j] != c,
        k < v.len() ==> v@[k as int] == c,
{
    let mut k: usize = from;
    while k < v.len() && v[k] != c
        invariant
            from <= k <= v.len(),
            forall|j: int| from <= j < k ==> v@[j] != c,
        decreases v.len() - k,
    {
        k += 1;
    }
    proof {
        lemma_find_char(v@.skip(from as int), c, k - from);
    }
    k
}

/// The first position at or after `from` where `v` holds white space, or
/// `v.len()`.
pub fn find_space_from(v: &Vec<char>, from: usize) -> (k: usize)
    requires
        from <= v.len(),
    ensures
        from <= k <= v.len(),
        k - from == find_space(v@.skip(from as int)),
        forall|j: int| from <= j < k ==> !is_space(v@[j]),
        k < v.len() ==> is_space(v@[k as int]),
{
    let mut k: usize = from;
    while k < v.len() && !is_space_char(v[k])
        invariant
            from <= k <= v.len(),
            forall|j: int| from <= j < k ==> !is_space(v@[j]),
        decreases v.len() - k,
    {
        k += 1;
    }
    proof {
        lemma_find_space(v@.skip(from as int), k - from);
    }
    k
}

/// `v` without its leading white space.
pub fn trim_start_chars(v: &Vec<char>) -> (r: Vec<char>)
    ensures
        r@ == trim_start(v@),
{
    let mut lo: usize = 0;
    assert(v@.skip(0) == v@);
    while lo < v.len() && is_space_char(v[lo])
        invariant
            lo <= v.len(),
            trim_start(v@) == trim_start(v@.skip(lo as int)),
        decreases v.len() - lo,
    {
        proof {
            assert(v@.skip(lo as int).drop_first() == v@.skip(lo + 1));
        }
        lo += 1;
    }
    assert(v@.skip(lo as int) == v@.subrange(lo as int, v.len() as int));
    slice_chars(v, lo, v.len())
}

/// `v` without leading and trailing white space.
pub fn trim_chars(v: &Vec<char>) -> (r: Vec<char>)
    ensures
        r@ == trim(v@),
{
    let mut lo: usize = 0;
    assert(v@.skip(0) == v@);
    while lo < v.len() && is_space_char(v[lo])
        invariant
            lo <= v.len(),
            trim_start(v@) == trim_start(v@.skip(lo as int)),
        decreases v.len() - lo,
    {
        proof {
            assert(v@.skip(lo as int).drop_first() == v@.skip(lo + 1));
        }
        lo += 1;
    }
    let mut hi: usize = v.len();
    assert(v@.skip(lo as int) == v@.subrange(lo as int, hi as int));
    while hi > lo && is_space_char(v[hi - 1])
        invariant
            lo <= hi <= v.len(),
            trim(v@) == trim_end(v@.subrange(lo as int, hi as int)),
        decreases hi,
    {
        proof {
            assert(v@.subrange(lo as int, hi as int).drop_last() == v@.subrange(
                lo as int,
                hi - 1,
            ));
        }
        hi -= 1;
    }
    slice_chars(v, lo, hi)
}

/// The pieces of `v` between occurrences of `sep`.
pub fn split_chars(v: &Vec<char>, sep: char) -> (r: Vec<Vec<char>>)
    ensures
        views(r@) == split(v@, sep),
{
    let mut r: Vec<Vec<char>> = Vec::new();
    let mut start: usize = 0;
    assert(v@.skip(0) == v@);
    loop
        invariant_except_break
            start <= v.len(),
            views(r@) + split(v@.skip(start as int), sep) == split(v@, sep),
        ensures
            views(r@) == split(v@, sep),
        decreases v.len() - start,
    {
        let k = find_from(v, start, sep);
        let piece = slice_chars(v, start, k);
        let ghost before = views(r@);
        let ghost rest = v@.skip(start as int);
        proof {
            assert(rest.take(k - start) == v@.subrange(start as int, k as int));
        }
        r.push(piece);
        assert(views(r@) == before + seq![piece@]);
        if k >= v.len() {
            assert(split(rest, sep) == seq![rest]);
            break ;
        }
        proof {
            assert(rest.skip(k - start + 1) == v@.skip(k + 1));
            assert(split(rest, sep) == seq![piece@] + split(v@.skip(k + 1), sep));
            assert(before + (seq![piece@] + split(v@.skip(k + 1), sep)) == (before + seq![
                piece@,
            ]) + split(v@.skip(k + 1), sep));
        }
        start = k + 1;
    }
    r
}

/// The lines of `v`.
pub fn lines_chars(v: &Vec<char>) -> (r: Vec<Vec<char>>)
    ensures
        views(r@) == lines(v@),
{
    let mut r: Vec<Vec<char>> = Vec::new();
    let mut start: usize = 0;
    assert(v@.skip(0) == v@);
    while start < v.len()
        invariant
            start <= v.len(),
            views(r@) + lines(v@.skip(start as int)) == lines(v@),
        decreases v.len() - start,
    {
        let k = find_from(v, start, '\n');
        let ghost before = views(r@);
        let ghost rest = v@.skip(start as int);
        proof {
            assert(rest.take(k - start) == v@.subrange(start as int, k as int));
        }
        if k >= v.len() {
            let piece = slice_chars(v, start, k);
            r.push(piece);
            assert(views(r@) == before + seq![piece@]);
            assert(lines(rest) == seq![rest]);
            assert(v@.skip(k as int).len() == 0);
            start = k;
        } else {
            let end = if k > start && v[k - 1] == '\r' {
                k - 1
            } else {
                k
            };
            let piece = slice_chars(v, start, end);
            proof {
                let whole = v@.subrange(start as int, k as int);
                assert(strip_cr(whole) == piece@) by {
                    if k > start && v@[k - 1] == '\r' {
                        assert(whole.drop_last() == v@.subrange(start as int, k - 1));
                    }
                }
                assert(rest.skip(k - start + 1) == v@.skip(k + 1));
                assert(lines(rest) == seq![piece@] + lines(v@.skip(k + 1)));
                assert(before + (seq![piece@] + lines(v@.skip(k + 1))) == (before + seq![
                    piece@,
                ]) + lines(v@.skip(k + 1)));
            }
            r.push(piece);
            assert(views(r@) == before + seq![piece@]);
            start = k + 1;
        }
    }
    assert(lines(v@.skip(start as int)) == Seq::<Seq<char>>::empty());
    assert(views(r@) + Seq::<Seq<char>>::empty() == views(r@));
    r
}

/// The maximal runs of characters of `v` that are not white space.
pub fn words_chars(v: &Vec<char>) -> (r: Vec<Vec<char>>)
    ensures
        views(r@) == words(v@),
{
    let mut r: Vec<Vec<char>> = Vec::new();
    let mut start: usize = 0;
    assert(v@.skip(0) == v@);
    while start < v.len()
        invariant
            start <= v.len(),
            views(r@) + words(v@.skip(start as int)) == words(v@),
        decreases v.len() - start,
    {
        let ghost before = views(r@);
        let ghost rest = v@.skip(start as int);
        if is_space_char(v[start]) {
            proof {
                assert(rest.drop_first() == v@.skip(start + 1));
            }
            start += 1;
        } else {
            let k = find_space_from(v, start);
            let piece = slice_chars(v, start, k);
            proof {
                assert(rest.take(k - start) == v@.subrange(start as int, k as int));
                assert(rest.skip(k - start) == v@.skip(k as int));
                assert(words(rest) == seq![piece@] + words(v@.skip(k as int)));
                assert(before + (seq![piece@] + words(v@.skip(k as int))) == (before + seq![
                    piece@,
                ]) + words(v@.skip(k as int)));
            }
            r.push(piece);
            assert(views(r@) == before + seq![piece@]);
            start = k;
        }
    }
    assert(words(v@.skip(start as int)) == Seq::<Seq<char>>::empty());
    assert(views(r@) + Seq::<Seq<char>>::empty() == views(r@));
    r
}

/// Whether `v` holds the characters of `p` from position `at` on.
pub fn matches_at(v: &Vec<char>, at: usize, p: &Vec<char>) -> (b: bool)
    requires
        at + p.len() <= v.len(),
    ensures
        b == (v@.subrange(at as int, at + p.len()) == p@),
{
    let mut i: usize = 0;
    while i < p.len()
        invariant
            i <= p.len(),
            at + p.len() <= v.len(),
            forall|j: int| 0 <= j < i ==> v@[at + j] == p@[j],
        decreases p.len() - i,
    {
        if v[at + i] != p[i] {
            assert(v@.subrange(at as int, at + p.len())[i as int] != p@[i as int]);
            return false;
        }
        i += 1;
    }
    assert(v@.subrange(at as int, at + p.len()) =~= p@);
    true
}

/// Whether `a` and `b` hold the same characters.
pub fn same_chars(a: &Vec<char>, b: &Vec<char>) -> (r: bool)
    ensures
        r == (a@ == b@),
{
    if a.len() != b.len() {
        return false;
    }
    assert(a@.subrange(0, 0 + b.len()) == a@);
    matches_at(a, 0, b)
}

/// Whether `v` holds exactly the characters of `lit`.
pub fn is_text(v: &Vec<char>, lit: &str) -> (r: bool)
    ensures
        r == (v@ == lit@),
{
    let p = to_chars(lit);
    same_chars(v, &p)
}

/// Whether `v` begins with `lit`.
pub fn starts_with_text(v: &Vec<char>, lit: &str) -> (r: bool)
    ensures
        r == starts_with(v@, lit@),
{
    let p = to_chars(lit);
    if p.len() > v.len() {
        return false;
    }
    assert(v@.subrange(0, 0 + p.len()) == v@.take(p.len() as int));
    matches_at(v, 0, &p)
}

/// Whether `v` ends with `lit`.
pub fn ends_with_text(v: &Vec<char>, lit: &str) -> (r: bool)
    ensures
        r == ends_with(v@, lit@),
{
    let p = to_chars(lit);
    if p.len() > v.len() {
        return false;
    }
    let at = v.len() - p.len();
    assert(v@.subrange(at as int, at + p.len()) == v@.skip(v.len() - p.len()));
    matches_at(v, at, &p)
}

/// Whether `lit` occurs in `v` as a contiguous run.
pub fn contains_text(v: &Vec<char>, lit: &str) -> (r: bool)
    ensures
        r == contains_run(v@, lit@),
{
    let p = to_chars(lit);
    if p.len() > v.len() {
        return false;
    }
    let last = v.len() - p.len();
    let mut i: usize = 0;
    loop
        invariant
            i <= last,
            last == v.len() - p.len(),
            p@ == lit@,
            forall|j: int| 0 <= j < i ==> #[trigger] v@.subrange(j, j + p.len()) != p@,
        decreases last - i,
    {
        if matches_at(v, i, &p) {
            return true;
        }
        if i == last {
            return false;
        }
        i += 1;
    }
}

/// Whether `c` occurs in `v`.
pub fn contains_char(v: &Vec<char>, c: char) -> (r: bool)
    ensures
        r == v@.contains(c),
{
    let k = find_from(v, 0, c);
    k < v.len()
}

/// Appends the characters of `text` to `out`.
pub fn push_text(out: &mut String, text: &str)
    ensures
        final(out)@ == old(out)@ + text@,
{
    for c in it: text.chars()
        invariant
            it.seq() == text@,
            out@ == old(out)@ + it.seq().take(it.index()),
    {
        out.push(c);
        assert(it.seq().take(it.index() + 1) == it.seq().take(it.index()).push(c));
    }
    assert(text@.take(text@.len() as int) == text@);
}

/// The text `a` followed by the text `b`.
pub fn join_text(a: &str, b: &str) -> (s: String)
    ensures
        s@ == a@ + b@,
{
    let mut s = String::new();
    push_text(&mut s, a);
    push_text(&mut s, b);
    assert(Seq::<char>::empty() + a@ == a@);
    s
}

/// `find_char` lies within the text.
pub proof fn lemma_find_char_bounds(s: Seq<char>, c: char)
    ensures
        0 <= find_char(s, c) <= s.len(),
    decreases s.len(),
{
    if s.len() > 0 && s[0] != c {
        lemma_find_char_bounds(s.drop_first(), c);
    }
}

} // verus!
