//! Text handling: whitespace, trimming, searching and splitting, with each
//! operation stated over the characters of the strings involved.
use vstd::prelude::*;

verus! {

/// True of the characters that Unicode calls white space.
pub open spec fn is_space(c: char) -> bool {
    let u = c as u32;
    ||| u == 0x20
    ||| (0x09 <= u && u <= 0x0d)
    ||| u == 0x85
    ||| u == 0xa0
    ||| u == 0x1680
    ||| (0x2000 <= u && u <= 0x200a)
    ||| u == 0x2028
    ||| u == 0x2029
    ||| u == 0x202f
    ||| u == 0x205f
    ||| u == 0x3000
}

/// Whether `c` is white space.
pub fn is_whitespace(c: char) -> (b: bool)
    ensures
        b == is_space(c),
{
    let u = c as u32;
    u == 0x20 || (0x09 <= u && u <= 0x0d) || u == 0x85 || u == 0xa0 || u == 0x1680 || (0x2000
        <= u && u <= 0x200a) || u == 0x2028 || u == 0x2029 || u == 0x202f || u == 0x205f || u
        == 0x3000
}

/// `s` without the white space at its end.
pub open spec fn trim_end_spec(s: Seq<char>) -> Seq<char>
    decreases s.len(),
{
    if s.len() > 0 && is_space(s.last()) {
        trim_end_spec(s.drop_last())
    } else {
        s
    }
}

/// `s` without the white space at its start.
pub open spec fn trim_start_spec(s: Seq<char>) -> Seq<char>
    decreases s.len(),
{
    if s.len() > 0 && is_space(s[0]) {
        trim_start_spec(s.drop_first())
    } else {
        s
    }
}

/// `s` without the white space at either end.
pub open spec fn trim_spec(s: Seq<char>) -> Seq<char> {
    trim_start_spec(trim_end_spec(s))
}

/// Appends one character to a string.
#[verifier::external_body]
pub(crate) fn push_char(s: &mut String, c: char)
    ensures
        final(s)@ == old(s)@.push(c),
{
    s.push(c);
}

/// The characters of a string, in order.
pub fn to_chars(s: &str) -> (v: Vec<char>)
    ensures
        v@ == s@,
{
    let mut v: Vec<char> = Vec::new();
    for c in it: s.chars()
        invariant
            v@ == it.seq().take(it.index() as int),
            it.seq() == s@,
    {
        v.push(c);
    }
    v
}

/// The string made of `v[lo..hi]`.
pub fn string_of(v: &[char], lo: usize, hi: usize) -> (r: String)
    requires
        lo <= hi <= v@.len(),
    ensures
        r@ == v@.subrange(lo as int, hi as int),
{
    let mut r = String::new();
    let mut i = lo;
    while i < hi
        invariant
            lo <= i <= hi,
            hi <= v@.len(),
            r@ == v@.subrange(lo as int, i as int),
        decreases hi - i,
    {
        push_char(&mut r, v[i]);
        assert(v@.subrange(lo as int, i + 1) =~= v@.subrange(lo as int, i as int).push(v@[i as int]));
        i = i + 1;
    }
    r
}

/// The number of characters left once white space is cut from the end of `v[..hi]`.
fn trimmed_end_index(v: &[char], hi: usize) -> (j: usize)
    requires
        hi <= v@.len(),
    ensures
        j <= hi,
        trim_end_spec(v@.take(hi as int)) == v@.take(j as int),
{
    let mut j = hi;
    while j > 0 && is_whitespace(v[j - 1])
        invariant
            j <= hi <= v@.len(),
            trim_end_spec(v@.take(hi as int)) == trim_end_spec(v@.take(j as int)),
        decreases j,
    {
        assert(v@.take(j as int).drop_last() =~= v@.take(j - 1));
        j = j - 1;
    }
    j
}

/// The index of the first character that is not white space in `v[lo..hi]`.
fn trimmed_start_index(v: &[char], lo: usize, hi: usize) -> (i: usize)
    requires
        lo <= hi <= v@.len(),
    ensures
        lo <= i <= hi,
        trim_start_spec(v@.subrange(lo as int, hi as int)) == v@.subrange(i as int, hi as int),
{
    let mut i = lo;
    while i < hi && is_whitespace(v[i])
        invariant
            lo <= i <= hi <= v@.len(),
            trim_start_spec(v@.subrange(lo as int, hi as int)) == trim_start_spec(
                v@.subrange(i as int, hi as int),
            ),
        decreases hi - i,
    {
        assert(v@.subrange(i as int, hi as int).drop_first() =~= v@.subrange(i + 1, hi as int));
        i = i + 1;
    }
    i
}

/// How many characters of `v` are left once white space is cut from its end.
pub fn trimmed_end_len(v: &[char]) -> (j: usize)
    ensures
        j <= v@.len(),
        trim_end_spec(v@) == v@.take(j as int),
{
    let j = trimmed_end_index(v, v.len());
    assert(v@.take(v@.len() as int) =~= v@);
    j
}

/// `s` without the white space at its end.
pub fn trim_end(s: &str) -> (r: String)
    ensures
        r@ == trim_end_spec(s@),
{
    let v = to_chars(s);
    let j = trimmed_end_index(v.as_slice(), v.len());
    assert(v@.take(v@.len() as int) =~= v@);
    assert(v@.take(j as int) =~= v@.subrange(0, j as int));
    string_of(v.as_slice(), 0, j)
}

/// `v[lo..hi]` without white space at either end.
pub fn trim_chars(v: &[char], lo: usize, hi: usize) -> (r: String)
    requires
        lo <= hi <= v@.len(),
    ensures
        r@ == trim_spec(v@.subrange(lo as int, hi as int)),
{
    let ghost w = v@.subrange(lo as int, hi as int);
    let mut j = hi;
    while j > lo && is_whitespace(v[j - 1])
        invariant
            lo <= j <= hi <= v@.len(),
            w == v@.subrange(lo as int, hi as int),
            trim_end_spec(w) == trim_end_spec(v@.subrange(lo as int, j as int)),
        decreases j,
    {
        assert(v@.subrange(lo as int, j as int).drop_last() =~= v@.subrange(lo as int, j - 1));
        j = j - 1;
    }
    assert(trim_end_spec(w) == v@.subrange(lo as int, j as int));
    let i = trimmed_start_index(v, lo, j);
    string_of(v, i, j)
}

/// `s` without white space at either end.
pub fn trim(s: &str) -> (r: String)
    ensures
        r@ == trim_spec(s@),
{
    let v = to_chars(s);
    assert(v@.subrange(0, v@.len() as int) =~= v@);
    trim_chars(v.as_slice(), 0, v.len())
}


/// Whether `p` occurs in `h` at index `i`.
pub open spec fn matches_at(h: Seq<char>, p: Seq<char>, i: int) -> bool {
    0 <= i && i + p.len() <= h.len() && h.subrange(i, i + p.len()) == p
}

/// The first index at or after `i` at which `p` occurs in `h`.
pub open spec fn find_from(h: Seq<char>, p: Seq<char>, i: int) -> Option<int>
    decreases h.len() + 1 - i,
{
    if i < 0 || i + p.len() > h.len() {
        None
    } else if matches_at(h, p, i) {
        Some(i)
    } else {
        find_from(h, p, i + 1)
    }
}

/// The first index at which `p` occurs in `h`, counted in characters.
pub open spec fn find_spec(h: Seq<char>, p: Seq<char>) -> Option<int> {
    find_from(h, p, 0)
}

/// Whether `p` occurs in `h` at index `i`.
fn matches_at_exec(h: &[char], p: &[char], i: usize) -> (b: bool)
    requires
        i + p@.len() <= h@.len(),
    ensures
        b == matches_at(h@, p@, i as int),
{
    let hl = h.len();
    let mut k: usize = 0;
    while k < p.len()
        invariant
            k <= p@.len(),
            i + p@.len() <= h@.len(),
            hl == h@.len(),
            forall|j: int| 0 <= j < k ==> h@[i + j] == p@[j],
        decreases p@.len() - k,
    {
        if h[i + k] != p[k] {
            assert(h@.subrange(i as int, i + p@.len())[k as int] != p@[k as int]);
            return false;
        }
        k = k + 1;
    }
    assert(h@.subrange(i as int, i + p@.len()) =~= p@);
    true
}

/// The first index at which `p` occurs in `h`.
pub fn find(h: &[char], p: &[char]) -> (r: Option<usize>)
    ensures
        match r {
            Some(i) => find_spec(h@, p@) == Some(i as int),
            None => find_spec(h@, p@) is None,
        },
{
    if p.len() > h.len() {
        return None;
    }
    let last = h.len() - p.len();
    let mut i: usize = 0;
    loop
        invariant
            last + p@.len() == h@.len(),
            i <= last,
            find_spec(h@, p@) == find_from(h@, p@, i as int),
        decreases last - i,
    {
        if matches_at_exec(h, p, i) {
            return Some(i);
        }
        if i == last {
            return None;
        }
        i = i + 1;
    }
}

/// The first index at or after `i` at which `c` stands in `s`.
pub open spec fn char_pos_from(s: Seq<char>, c: char, i: int) -> Option<int>
    decreases s.len() + 1 - i,
{
    if i < 0 || i >= s.len() {
        None
    } else if s[i] == c {
        Some(i)
    } else {
        char_pos_from(s, c, i + 1)
    }
}

/// The first index at which `c` stands in `s`.
pub open spec fn char_pos(s: Seq<char>, c: char) -> Option<int> {
    char_pos_from(s, c, 0)
}

/// Where `char_pos_from` can land.
pub proof fn lemma_char_pos_from(s: Seq<char>, c: char, i: int)
    requires
        0 <= i,
    ensures
        char_pos_from(s, c, i) matches Some(k) ==> i <= k < s.len() && s[k] == c && forall|
            j: int,
        | i <= j < k ==> s[j] != c,
        char_pos_from(s, c, i) is None ==> forall|j: int| i <= j < s.len() ==> s[j] != c,
    decreases s.len() + 1 - i,
{
    if 0 <= i < s.len() && s[i] != c {
        lemma_char_pos_from(s, c, i + 1);
    }
}


/// The first index at or after `start` at which `c` stands in `v`.
pub fn char_position_from(v: &[char], c: char, start: usize) -> (r: Option<usize>)
    requires
        start <= v@.len(),
    ensures
        match r {
            Some(k) => char_pos_from(v@, c, start as int) == Some(k as int),
            None => char_pos_from(v@, c, start as int) is None,
        },
{
    let n = v.len();
    let mut i = start;
    while i < n
        invariant
            start <= i <= n,
            n == v@.len(),
            char_pos_from(v@, c, start as int) == char_pos_from(v@, c, i as int),
        decreases n - i,
    {
        if v[i] == c {
            return Some(i);
        }
        i = i + 1;
    }
    None
}

/// `l` without one `'\r'` at its end.
pub open spec fn strip_cr(l: Seq<char>) -> Seq<char> {
    if l.len() > 0 && l.last() == '\r' {
        l.drop_last()
    } else {
        l
    }
}

/// The lines of `s` from index `start` on: text up to each `'\n'`, less a
/// `'\r'` just before it, and the text after the last `'\n'` if there is any.
pub open spec fn lines_from(s: Seq<char>, start: int) -> Seq<Seq<char>>
    decreases s.len() - start,
{
    if start < 0 || start >= s.len() {
        seq![]
    } else {
        match char_pos_from(s, '\n', start) {
            None => seq![s.subrange(start, s.len() as int)],
            Some(k) => {
                proof {
                    lemma_char_pos_from(s, '\n', start);
                }
                seq![strip_cr(s.subrange(start, k))] + lines_from(s, k + 1)
            },
        }
    }
}

/// The lines of `s`.
pub open spec fn lines_spec(s: Seq<char>) -> Seq<Seq<char>> {
    lines_from(s, 0)
}

/// The character sequences held by a sequence of vectors.
pub open spec fn seqs_of(v: Seq<Vec<char>>) -> Seq<Seq<char>> {
    v.map_values(|l: Vec<char>| l@)
}

/// A copy of `v[lo..hi]`.
pub fn copy_range(v: &[char], lo: usize, hi: usize) -> (r: Vec<char>)
    requires
        lo <= hi <= v@.len(),
    ensures
        r@ == v@.subrange(lo as int, hi as int),
{
    let mut r: Vec<char> = Vec::new();
    let mut i = lo;
    while i < hi
        invariant
            lo <= i <= hi <= v@.len(),
            r@ == v@.subrange(lo as int, i as int),
        decreases hi - i,
    {
        r.push(v[i]);
        assert(v@.subrange(lo as int, i + 1) =~= v@.subrange(lo as int, i as int).push(v@[i as int]));
        i = i + 1;
    }
    r
}

/// The lines of the text `v`.
pub fn lines_of(v: &[char]) -> (out: Vec<Vec<char>>)
    ensures
        seqs_of(out@) == lines_spec(v@),
{
    let n = v.len();
    let mut out: Vec<Vec<char>> = Vec::new();
    let mut start: usize = 0;
    let mut i: usize = 0;
    while i < n
        invariant
            start <= i <= n,
            n == v@.len(),
            lines_spec(v@) == seqs_of(out@) + lines_from(v@, start as int),
            char_pos_from(v@, '\n', start as int) == char_pos_from(v@, '\n', i as int),
        decreases n - i,
    {
        if v[i] == '\n' {
            let mut end = i;
            if end > start && v[end - 1] == '\r' {
                end = end - 1;
            }
            let line = copy_range(v, start, end);
            assert(line@ == strip_cr(v@.subrange(start as int, i as int))) by {
                if i > start && v@[i - 1] == '\r' {
                    assert(v@.subrange(start as int, i as int).drop_last() =~= v@.subrange(
                        start as int,
                        i - 1,
                    ));
                }
            }
            let ghost before = out@;
            out.push(line);
            assert(seqs_of(out@) =~= seqs_of(before) + seq![line@]);
            assert(lines_from(v@, start as int) == seq![line@] + lines_from(v@, i + 1));
            start = i + 1;
        }
        i = i + 1;
    }
    if start < n {
        let line = copy_range(v, start, n);
        let ghost before = out@;
        out.push(line);
        assert(seqs_of(out@) =~= seqs_of(before) + seq![line@]);
        assert(lines_from(v@, n as int) =~= seq![]);
    }
    assert(seqs_of(out@) + seq![] =~= seqs_of(out@));
    out
}

/// The text of the `n`-th piece (from 0) of `s` cut at every `c`, reading from `start`.
pub open spec fn piece_from(s: Seq<char>, c: char, start: int, n: nat) -> Option<Seq<char>>
    decreases n,
{
    match char_pos_from(s, c, start) {
        None => if n == 0 {
            Some(s.subrange(start, s.len() as int))
        } else {
            None
        },
        Some(k) => if n == 0 {
            Some(s.subrange(start, k))
        } else {
            piece_from(s, c, k + 1, (n - 1) as nat)
        },
    }
}

/// The `n`-th piece (from 0) of `s` cut at every `c`, if there are that many.
pub open spec fn split_piece(s: Seq<char>, c: char, n: nat) -> Option<Seq<char>> {
    piece_from(s, c, 0, n)
}

/// The `n`-th piece (from 0) of `v` cut at every `c`, if there are that many.
pub fn nth_piece(v: &[char], c: char, n: usize) -> (r: Option<String>)
    ensures
        match r {
            Some(p) => split_piece(v@, c, n as nat) == Some(p@),
            None => split_piece(v@, c, n as nat) is None,
        },
{
    let len = v.len();
    let mut start: usize = 0;
    let mut left: usize = n;
    loop
        invariant
            start <= len,
            len == v@.len(),
            split_piece(v@, c, n as nat) == piece_from(v@, c, start as int, left as nat),
        decreases len - start,
    {
        match char_position_from(v, c, start) {
            None => {
                if left == 0 {
                    return Some(string_of(v, start, len));
                } else {
                    return None;
                }
            },
            Some(k) => {
                proof {
                    lemma_char_pos_from(v@, c, start as int);
                }
                if left == 0 {
                    return Some(string_of(v, start, k));
                }
                start = k + 1;
                left = left - 1;
            },
        }
    }
}

/// `s` with every `from` replaced by `to`.
pub open spec fn replace_char_spec(s: Seq<char>, from: char, to: char) -> Seq<char> {
    Seq::new(s.len(), |i: int| if s[i] == from { to } else { s[i] })
}

/// `s` with every `from` replaced by `to`.
pub fn replace_char(s: &str, from: char, to: char) -> (r: String)
    ensures
        r@ == replace_char_spec(s@, from, to),
{
    let v = to_chars(s);
    let mut r = String::new();
    let mut i: usize = 0;
    while i < v.len()
        invariant
            i <= v@.len(),
            v@ == s@,
            r@ == replace_char_spec(s@, from, to).take(i as int),
        decreases v@.len() - i,
    {
        let c = if v[i] == from {
            to
        } else {
            v[i]
        };
        push_char(&mut r, c);
        assert(replace_char_spec(s@, from, to).take(i + 1) =~= replace_char_spec(s@, from, to).take(
            i as int,
        ).push(c));
        i = i + 1;
    }
    assert(replace_char_spec(s@, from, to).take(v@.len() as int) =~= replace_char_spec(
        s@,
        from,
        to,
    ));
    r
}

/// Whether `c` stands anywhere in `s`.
pub fn contains_char(s: &str, c: char) -> (b: bool)
    ensures
        b == s@.contains(c),
{
    let v = to_chars(s);
    match char_position_from(v.as_slice(), c, 0) {
        Some(k) => {
            proof {
                lemma_char_pos_from(v@, c, 0);
            }
            true
        },
        None => {
            proof {
                lemma_char_pos_from(v@, c, 0);
            }
            false
        },
    }
}

/// Whether `s` ends with `p`.
pub open spec fn ends_with_spec(s: Seq<char>, p: Seq<char>) -> bool {
    p.len() <= s.len() && s.subrange(s.len() - p.len(), s.len() as int) == p
}

/// `s` with `p` cut from its end as many times as it stands there.
pub open spec fn trim_end_matches_spec(s: Seq<char>, p: Seq<char>) -> Seq<char>
    decreases s.len(),
{
    if p.len() > 0 && ends_with_spec(s, p) {
        trim_end_matches_spec(s.subrange(0, s.len() - p.len()), p)
    } else {
        s
    }
}

/// Whether `v[..end]` ends with `p`.
fn ends_with_at(v: &[char], end: usize, p: &[char]) -> (b: bool)
    requires
        end <= v@.len(),
    ensures
        b == ends_with_spec(v@.take(end as int), p@),
{
    if p.len() > end {
        return false;
    }
    let off = end - p.len();
    let r = matches_at_exec(v, p, off);
    assert(v@.take(end as int).subrange(off as int, end as int) =~= v@.subrange(
        off as int,
        off + p@.len(),
    ));
    r
}

/// `s` with `p` cut from its end as many times as it stands there.
pub fn trim_end_matches(s: &str, p: &str) -> (r: String)
    ensures
        r@ == trim_end_matches_spec(s@, p@),
{
    let v = to_chars(s);
    let pv = to_chars(p);
    let mut end = v.len();
    assert(v@.take(end as int) =~= v@);
    while pv.len() > 0 && ends_with_at(v.as_slice(), end, pv.as_slice())
        invariant
            end <= v@.len(),
            v@ == s@,
            pv@ == p@,
            trim_end_matches_spec(s@, p@) == trim_end_matches_spec(v@.take(end as int), p@),
        decreases end,
    {
        assert(v@.take(end as int).subrange(0, end - pv@.len()) =~= v@.take(end - pv@.len()));
        end = end - pv.len();
    }
    assert(v@.take(end as int) =~= v@.subrange(0, end as int));
    string_of(v.as_slice(), 0, end)
}

/// The code of `c` once an ASCII capital is made small.
pub open spec fn ascii_lower_code(c: char) -> u32 {
    let u = c as u32;
    if 65 <= u && u <= 90 {
        (u + 32) as u32
    } else {
        u
    }
}

/// Whether `s` ends with `p`, ASCII capitals in `s` taken as small letters.
pub open spec fn ends_with_ignore_case_spec(s: Seq<char>, p: Seq<char>) -> bool {
    p.len() <= s.len() && forall|i: int|
        0 <= i < p.len() ==> ascii_lower_code(#[trigger] s[s.len() - p.len() + i]) == p[i] as u32
}

/// Whether `s` ends with `p`, ASCII capitals in `s` taken as small letters.
pub fn ends_with_ignore_case(s: &str, p: &str) -> (b: bool)
    ensures
        b == ends_with_ignore_case_spec(s@, p@),
{
    let v = to_chars(s);
    let pv = to_chars(p);
    if pv.len() > v.len() {
        return false;
    }
    let vl = v.len();
    let off = vl - pv.len();
    let mut i: usize = 0;
    while i < pv.len()
        invariant
            i <= pv@.len(),
            vl == v@.len(),
            off + pv@.len() == v@.len(),
            v@ == s@,
            pv@ == p@,
            forall|j: int| 0 <= j < i ==> ascii_lower_code(#[trigger] v@[off + j]) == pv@[j] as u32,
        decreases pv@.len() - i,
    {
        let u = v[off + i] as u32;
        let lower = if 65 <= u && u <= 90 {
            u + 32
        } else {
            u
        };
        if lower != pv[i] as u32 {
            assert(ascii_lower_code(s@[s@.len() - p@.len() + i]) != p@[i as int] as u32);
            return false;
        }
        i = i + 1;
    }
    true
}


/// Whether `c` is one of the digits `0` to `9`.
pub open spec fn is_digit(c: char) -> bool {
    48 <= (c as u32) && (c as u32) <= 57
}

/// The value of the digit `c`.
pub open spec fn digit_value(c: char) -> nat {
    ((c as u32) - 48) as nat
}

/// Whether every character of `s` is a digit.
pub open spec fn all_digits(s: Seq<char>) -> bool {
    forall|i: int| 0 <= i < s.len() ==> is_digit(#[trigger] s[i])
}

/// The number that the digits `s` write in base ten.
pub open spec fn digits_value(s: Seq<char>) -> nat
    decreases s.len(),
{
    if s.len() == 0 {
        0
    } else {
        digits_value(s.drop_last()) * 10 + digit_value(s.last())
    }
}

/// `s` without one leading `'+'`.
pub open spec fn unsigned_digits(s: Seq<char>) -> Seq<char> {
    if s.len() > 0 && s[0] == '+' {
        s.drop_first()
    } else {
        s
    }
}

/// The `u32` that `s` writes: an optional `'+'`, then one or more digits,
/// whose value fits in a `u32`.
pub open spec fn parse_u32_spec(s: Seq<char>) -> Option<u32> {
    let d = unsigned_digits(s);
    if d.len() > 0 && all_digits(d) && digits_value(d) <= u32::MAX {
        Some(digits_value(d) as u32)
    } else {
        None
    }
}

/// A prefix of a string of digits writes no larger a number than the whole.
pub proof fn lemma_digits_prefix(s: Seq<char>, k: int)
    requires
        0 <= k <= s.len(),
        all_digits(s),
    ensures
        digits_value(s.take(k)) <= digits_value(s),
    decreases s.len() - k,
{
    if k == s.len() {
        assert(s.take(k) =~= s);
    } else {
        lemma_digits_prefix(s, k + 1);
        assert(s.take(k + 1).drop_last() =~= s.take(k));
    }
}

/// The number that `s` writes, when it writes a `u32`.
pub fn parse_u32(s: &str) -> (r: Option<u32>)
    ensures
        r == parse_u32_spec(s@),
{
    let v = to_chars(s);
    let n = v.len();
    let start: usize = if n > 0 && v[0] == '+' {
        1
    } else {
        0
    };
    let ghost d = unsigned_digits(s@);
    assert(d =~= v@.skip(start as int));
    if start == n {
        return None;
    }
    let mut acc: u64 = 0;
    let mut i = start;
    while i < n
        invariant
            start <= i <= n,
            n == v@.len(),
            v@ == s@,
            d == v@.skip(start as int),
            d == unsigned_digits(s@),
            all_digits(d.take(i - start)),
            acc == digits_value(d.take(i - start)),
            acc <= u32::MAX,
        decreases n - i,
    {
        let c = v[i];
        let u = c as u32;
        assert(d[i - start] == c);
        if u < 48 || u > 57 {
            assert(!is_digit(d[i - start]));
            assert(!all_digits(d));
            assert(parse_u32_spec(s@) is None);
            return None;
        }
        let ghost k = i - start;
        assert(d.take(k + 1).drop_last() =~= d.take(k));
        assert(d.take(k + 1).last() == c);
        assert(digits_value(d.take(k + 1)) == digits_value(d.take(k)) * 10 + digit_value(c));
        acc = acc * 10 + (u - 48) as u64;
        assert(acc == digits_value(d.take(k + 1)));
        if acc > 0xffff_ffff {
            proof {
                if all_digits(d) {
                    lemma_digits_prefix(d, k + 1);
                }
            }
            return None;
        }
        assert(all_digits(d.take(k + 1))) by {
            assert forall|j: int| 0 <= j < k + 1 implies is_digit(#[trigger] d.take(k + 1)[j]) by {
                if j < k {
                    assert(d.take(k + 1)[j] == d.take(k)[j]);
                }
            }
        }
        i = i + 1;
    }
    assert(d.take(n - start) =~= d);
    Some(acc as u32)
}

/// The digit that stands for `d`, for `d` below ten.
pub open spec fn digit_char(d: nat) -> char {
    if d == 0 {
        '0'
    } else if d == 1 {
        '1'
    } else if d == 2 {
        '2'
    } else if d == 3 {
        '3'
    } else if d == 4 {
        '4'
    } else if d == 5 {
        '5'
    } else if d == 6 {
        '6'
    } else if d == 7 {
        '7'
    } else if d == 8 {
        '8'
    } else {
        '9'
    }
}

/// `n` written in base ten, with no leading zero.
pub open spec fn decimal_spec(n: nat) -> Seq<char>
    decreases n,
{
    if n < 10 {
        seq![digit_char(n)]
    } else {
        decimal_spec(n / 10).push(digit_char(n % 10))
    }
}

fn digit_char_exec(d: u32) -> (c: char)
    requires
        d < 10,
    ensures
        c == digit_char(d as nat),
{
    if d == 0 {
        '0'
    } else if d == 1 {
        '1'
    } else if d == 2 {
        '2'
    } else if d == 3 {
        '3'
    } else if d == 4 {
        '4'
    } else if d == 5 {
        '5'
    } else if d == 6 {
        '6'
    } else if d == 7 {
        '7'
    } else if d == 8 {
        '8'
    } else {
        '9'
    }
}

/// `n` written in base ten, as `to_string` writes it.
pub fn decimal_string(n: u32) -> (r: String)
    ensures
        r@ == decimal_spec(n as nat),
    decreases n,
{
    if n < 10 {
        let mut r = String::new();
        push_char(&mut r, digit_char_exec(n));
        assert(r@ =~= seq![digit_char(n as nat)]);
        r
    } else {
        let mut r = decimal_string(n / 10);
        push_char(&mut r, digit_char_exec(n % 10));
        r
    }
}

/// The digits that `decimal_spec` writes read back as the number.
pub proof fn lemma_decimal_digits(n: nat)
    ensures
        decimal_spec(n).len() > 0,
        all_digits(decimal_spec(n)),
        digits_value(decimal_spec(n)) == n,
    decreases n,
{
    if n >= 10 {
        lemma_decimal_digits(n / 10);
        let s = decimal_spec(n);
        assert(s.drop_last() =~= decimal_spec(n / 10));
        let d = n % 10;
        assert(is_digit(digit_char(d)) && digit_value(digit_char(d)) == d);
        assert(s.last() == digit_char(d));
        assert(digits_value(s) == digits_value(s.drop_last()) * 10 + digit_value(s.last()));
        assert((n / 10) * 10 + d == n);
        assert(digits_value(s) == n);
        assert forall|i: int| 0 <= i < s.len() implies is_digit(#[trigger] s[i]) by {
            if i < s.len() - 1 {
                assert(s[i] == s.drop_last()[i]);
            }
        }
    } else {
        assert(is_digit(digit_char(n)) && digit_value(digit_char(n)) == n);
        assert(decimal_spec(n).drop_last() =~= Seq::<char>::empty());
        assert(digits_value(decimal_spec(n).drop_last()) == 0);
        assert(digits_value(decimal_spec(n)) == n);
    }
}

/// A number written by `decimal_string` is read back by `parse_u32` as the
/// same number.
pub proof fn lemma_decimal_parse_roundtrip(n: u32)
    ensures
        parse_u32_spec(decimal_spec(n as nat)) == Some(n),
{
    lemma_decimal_digits(n as nat);
    let s = decimal_spec(n as nat);
    assert(is_digit(s[0]));
    assert(unsigned_digits(s) == s);
}

} // verus!
