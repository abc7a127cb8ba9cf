//! Paths, held as text with `/` between their parts: joining, splitting into
//! parts, and the last part.
use vstd::prelude::*;
use crate::utils::text::{
    trimmed_end_len,
    char_pos_from, char_position_from, copy_range, lemma_char_pos_from, push_char, seqs_of,
    string_of, to_chars, trim_end_spec,
};

verus! {

/// `base` with `part` added at its end: a part that starts with `/` takes the
/// place of the base, and a `/` goes between the two unless the base is empty
/// or already ends with one.
pub open spec fn path_push_spec(base: Seq<char>, part: Seq<char>) -> Seq<char> {
    if part.len() > 0 && part[0] == '/' {
        part
    } else if base.len() > 0 && base.last() != '/' {
        base + seq!['/'] + part
    } else {
        base + part
    }
}

/// Appends the characters of `v` to `s`.
fn append_chars(s: &mut String, v: &[char])
    ensures
        final(s)@ == old(s)@ + v@,
{
    let mut i: usize = 0;
    while i < v.len()
        invariant
            i <= v@.len(),
            s@ == old(s)@ + v@.take(i as int),
        decreases v@.len() - i,
    {
        push_char(s, v[i]);
        assert(v@.take(i + 1) =~= v@.take(i as int).push(v@[i as int]));
        i = i + 1;
    }
    assert(v@.take(v@.len() as int) =~= v@);
}

/// `base` joined with `part`, as `PathBuf::push` joins them.
pub fn path_push(base: &str, part: &str) -> (r: String)
    ensures
        r@ == path_push_spec(base@, part@),
{
    let b = to_chars(base);
    let p = to_chars(part);
    let mut r = String::new();
    if p.len() > 0 && p[0] == '/' {
        append_chars(&mut r, p.as_slice());
        assert(r@ =~= p@);
        return r;
    }
    append_chars(&mut r, b.as_slice());
    if b.len() > 0 && b[b.len() - 1] != '/' {
        push_char(&mut r, '/');
    }
    append_chars(&mut r, p.as_slice());
    assert(r@ =~= path_push_spec(base@, part@));
    r
}

/// The parts of a path that count: neither empty nor `.`.
pub open spec fn kept_part(p: Seq<char>) -> Seq<Seq<char>> {
    if p.len() == 0 || p == seq!['.'] {
        seq![]
    } else {
        seq![p]
    }
}

/// The parts of `s` from index `start` on, cut at every `/`, empty parts and
/// `.` left out.
pub open spec fn body_parts_from(s: Seq<char>, start: int) -> Seq<Seq<char>>
    decreases s.len() - start,
{
    if start < 0 || start >= s.len() {
        seq![]
    } else {
        match char_pos_from(s, '/', start) {
            None => kept_part(s.subrange(start, s.len() as int)),
            Some(k) => {
                proof {
                    lemma_char_pos_from(s, '/', start);
                }
                kept_part(s.subrange(start, k)) + body_parts_from(s, k + 1)
            },
        }
    }
}

/// Whether `s` starts with `/`.
pub open spec fn has_root(s: Seq<char>) -> bool {
    s.len() > 0 && s[0] == '/'
}

/// Whether `s` starts with the part `.`.
pub open spec fn starts_with_cur_dir(s: Seq<char>) -> bool {
    s.len() > 0 && s[0] == '.' && (s.len() == 1 || s[1] == '/')
}

/// The parts of a path in order, as `Path::iter` gives them: `/` for the
/// root, `.` only when the path starts with it, and otherwise the text
/// between separators, empty parts and `.` left out.
pub open spec fn path_parts(s: Seq<char>) -> Seq<Seq<char>> {
    if has_root(s) {
        seq![seq!['/']] + body_parts_from(s, 1)
    } else if starts_with_cur_dir(s) {
        seq![seq!['.']] + body_parts_from(s, 1)
    } else {
        body_parts_from(s, 0)
    }
}

/// Adds `v[lo..hi]` to `out` unless it is empty or `.`.
fn keep_part(out: &mut Vec<Vec<char>>, v: &[char], lo: usize, hi: usize)
    requires
        lo <= hi <= v@.len(),
    ensures
        seqs_of(final(out)@) == seqs_of(old(out)@) + kept_part(v@.subrange(lo as int, hi as int)),
{
    let ghost piece = v@.subrange(lo as int, hi as int);
    if lo == hi || (hi == lo + 1 && v[lo] == '.') {
        assert(piece.len() == 0 || piece =~= seq!['.']);
        assert(seqs_of(out@) + kept_part(piece) =~= seqs_of(out@));
        return;
    }
    assert(!(piece =~= seq!['.']) ==> piece != seq!['.']);
    assert(piece.len() == 1 ==> piece[0] != '.');
    assert(piece != seq!['.']);
    let ghost before = out@;
    out.push(copy_range(v, lo, hi));
    assert(seqs_of(out@) =~= seqs_of(before) + seq![piece]);
}

/// The parts of `v` from index `start` on, as `body_parts_from` gives them.
fn body_parts(v: &[char], out: &mut Vec<Vec<char>>, start: usize)
    requires
        start <= v@.len(),
    ensures
        seqs_of(final(out)@) == seqs_of(old(out)@) + body_parts_from(v@, start as int),
{
    let n = v.len();
    let mut lo = start;
    let ghost first = seqs_of(out@);
    assert(seqs_of(out@) + body_parts_from(v@, start as int) =~= first + body_parts_from(
        v@,
        lo as int,
    ));
    loop
        invariant
            start <= lo <= n,
            n == v@.len(),
            first == seqs_of(old(out)@),
            first + body_parts_from(v@, start as int) == seqs_of(out@) + body_parts_from(
                v@,
                lo as int,
            ),
        decreases n - lo,
    {
        if lo == n {
            assert(seqs_of(out@) + body_parts_from(v@, lo as int) =~= seqs_of(out@));
            return;
        }
        match char_position_from(v, '/', lo) {
            None => {
                keep_part(out, v, lo, n);
                assert(seqs_of(out@) =~= seqs_of(out@) + body_parts_from(v@, n as int));
                return;
            },
            Some(k) => {
                proof {
                    lemma_char_pos_from(v@, '/', lo as int);
                }
                let ghost mid = seqs_of(out@);
                keep_part(out, v, lo, k);
                assert(body_parts_from(v@, lo as int) == kept_part(v@.subrange(lo as int, k as int))
                    + body_parts_from(v@, k + 1));
                assert(mid + body_parts_from(v@, lo as int) =~= seqs_of(out@) + body_parts_from(
                    v@,
                    k + 1,
                ));
                lo = k + 1;
            },
        }
    }
}

/// The parts of a path in order, as `Path::iter` gives them.
pub fn path_parts_of(v: &[char]) -> (out: Vec<Vec<char>>)
    ensures
        seqs_of(out@) == path_parts(v@),
{
    let mut out: Vec<Vec<char>> = Vec::new();
    let n = v.len();
    if n > 0 && v[0] == '/' {
        let mut root: Vec<char> = Vec::new();
        root.push('/');
        out.push(root);
        assert(seqs_of(out@) =~= seq![seq!['/']]);
        body_parts(v, &mut out, 1);
    } else if n > 0 && v[0] == '.' && (n == 1 || v[1] == '/') {
        let mut cur: Vec<char> = Vec::new();
        cur.push('.');
        out.push(cur);
        assert(seqs_of(out@) =~= seq![seq!['.']]);
        body_parts(v, &mut out, 1);
    } else {
        assert(seqs_of(out@) =~= Seq::<Seq<char>>::empty());
        body_parts(v, &mut out, 0);
        assert(seqs_of(out@) =~= body_parts_from(v@, 0));
    }
    out
}


/// `acc` with each of `parts`, cut of its trailing white space, pushed on in turn.
pub open spec fn push_trimmed_parts(acc: Seq<char>, parts: Seq<Seq<char>>) -> Seq<char>
    decreases parts.len(),
{
    if parts.len() == 0 {
        acc
    } else {
        push_trimmed_parts(path_push_spec(acc, trim_end_spec(parts[0])), parts.drop_first())
    }
}

/// The path rebuilt from the parts of `p`, each cut of its trailing white space.
pub open spec fn trim_endspaces_spec(p: Seq<char>) -> Seq<char> {
    push_trimmed_parts(Seq::empty(), path_parts(p))
}

/// `base` joined with `part`, on character vectors.
fn push_chars(base: &Vec<char>, part: &[char]) -> (r: Vec<char>)
    ensures
        r@ == path_push_spec(base@, part@),
{
    if part.len() > 0 && part[0] == '/' {
        let r = copy_range(part, 0, part.len());
        assert(r@ =~= part@);
        return r;
    }
    let mut r = copy_range(base.as_slice(), 0, base.len());
    assert(r@ =~= base@);
    if base.len() > 0 && base[base.len() - 1] != '/' {
        r.push('/');
    }
    let mut i: usize = 0;
    let ghost head = r@;
    while i < part.len()
        invariant
            i <= part@.len(),
            r@ == head + part@.take(i as int),
        decreases part@.len() - i,
    {
        r.push(part[i]);
        assert(part@.take(i + 1) =~= part@.take(i as int).push(part@[i as int]));
        i = i + 1;
    }
    assert(part@.take(part@.len() as int) =~= part@);
    assert(r@ =~= path_push_spec(base@, part@));
    r
}

/// The path with trailing white space cut from each of its parts, as the
/// server stores what a client sends.
pub fn trim_endspaces_in_files(old: &str) -> (new: String)
    ensures
        new@ == trim_endspaces_spec(old@),
{
    let v = to_chars(old);
    let parts = path_parts_of(v.as_slice());
    let mut acc: Vec<char> = Vec::new();
    let mut i: usize = 0;
    assert(parts@.skip(0) =~= parts@);
    assert(seqs_of(parts@).skip(0) =~= seqs_of(parts@));
    while i < parts.len()
        invariant
            i <= parts@.len(),
            seqs_of(parts@) == path_parts(v@),
            v@ == old@,
            trim_endspaces_spec(old@) == push_trimmed_parts(acc@, seqs_of(parts@).skip(i as int)),
        decreases parts@.len() - i,
    {
        let part = &parts[i];
        let j = trimmed_end_len(part.as_slice());
        let trimmed = copy_range(part.as_slice(), 0, j);
        assert(seqs_of(parts@).skip(i as int)[0] == part@);
        assert(seqs_of(parts@).skip(i as int).drop_first() =~= seqs_of(parts@).skip(i + 1));
        acc = push_chars(&acc, trimmed.as_slice());
        i = i + 1;
    }
    string_of(acc.as_slice(), 0, acc.len())
}

/// The last part of a path, unless that is the root, `.` or `..`.
pub open spec fn file_name_spec(p: Seq<char>) -> Option<Seq<char>> {
    let parts = path_parts(p);
    if parts.len() == 0 {
        None
    } else {
        let last = parts.last();
        if last == seq!['/'] || last == seq!['.'] || last == seq!['.', '.'] {
            None
        } else {
            Some(last)
        }
    }
}

/// The last part of a path, as `Path::file_name` gives it.
pub fn file_name(p: &str) -> (r: Option<String>)
    ensures
        match r {
            Some(s) => file_name_spec(p@) == Some(s@),
            None => file_name_spec(p@) is None,
        },
{
    let v = to_chars(p);
    let parts = path_parts_of(v.as_slice());
    if parts.len() == 0 {
        return None;
    }
    let last = &parts[parts.len() - 1];
    assert(seqs_of(parts@).last() == last@);
    let n = last.len();
    let is_root = n == 1 && last[0] == '/';
    let is_cur = n == 1 && last[0] == '.';
    let is_parent = n == 2 && last[0] == '.' && last[1] == '.';
    if is_root || is_cur || is_parent {
        assert(last@ =~= seq!['/'] || last@ =~= seq!['.'] || last@ =~= seq!['.', '.']);
        return None;
    }
    assert(last@ != seq!['/']) by {
        if last@ == seq!['/'] {
            assert(last@.len() == 1 && last@[0] == '/');
        }
    }
    assert(last@ != seq!['.']) by {
        if last@ == seq!['.'] {
            assert(last@.len() == 1 && last@[0] == '.');
        }
    }
    assert(last@ != seq!['.', '.']) by {
        if last@ == seq!['.', '.'] {
            assert(last@.len() == 2 && last@[0] == '.' && last@[1] == '.');
        }
    }
    Some(string_of(last.as_slice(), 0, n))
}


/// Whether `s` holds no `/`.
pub open spec fn no_sep(s: Seq<char>) -> bool {
    forall|i: int| 0 <= i < s.len() ==> s[i] != '/'
}

/// Whether no part of the path `p` ends in white space.
pub open spec fn parts_trimmed(p: Seq<char>) -> bool {
    forall|i: int|
        0 <= i < path_parts(p).len() ==> trim_end_spec(#[trigger] path_parts(p)[i])
            == path_parts(p)[i]
}

/// From a point past which there is no `/`, the parts are what is left.
proof fn lemma_body_parts_no_sep(s: Seq<char>, k: int)
    requires
        0 <= k <= s.len(),
        forall|i: int| k <= i < s.len() ==> s[i] != '/',
    ensures
        body_parts_from(s, k) == kept_part(s.subrange(k, s.len() as int)),
{
    if k == s.len() {
        assert(s.subrange(k, s.len() as int) =~= Seq::<char>::empty());
    } else {
        lemma_char_pos_from(s, '/', k);
    }
}

/// Where the first `/` from `k` stands in a text is where it stands once
/// more text follows, if it stands in the first text at all.
pub proof fn lemma_char_pos_prefix(s: Seq<char>, w: Seq<char>, c: char, k: int)
    requires
        0 <= k <= s.len(),
    ensures
        char_pos_from(s, c, k) matches Some(j) ==> char_pos_from(s + w, c, k) == Some(j),
        char_pos_from(s, c, k) is None ==> char_pos_from(s + w, c, k) == char_pos_from(
            s + w,
            c,
            s.len() as int,
        ),
    decreases s.len() - k,
{
    if k < s.len() {
        assert((s + w)[k] == s[k]);
        if s[k] != c {
            lemma_char_pos_prefix(s, w, c, k + 1);
        }
    }
}

/// Where the first `c` from `j` stands in `t` is where it stands, moved on
/// by the length of `p`, in `p` followed by `t`.
pub proof fn lemma_char_pos_shift(p: Seq<char>, t: Seq<char>, c: char, j: int)
    requires
        0 <= j,
    ensures
        char_pos_from(p + t, c, p.len() + j) == match char_pos_from(t, c, j) {
            Some(k) => Some(k + p.len()),
            None => None,
        },
    decreases t.len() - j,
{
    if j < t.len() {
        assert((p + t)[p.len() + j] == t[j]);
        if t[j] != c {
            lemma_char_pos_shift(p, t, c, j + 1);
        }
    }
}

/// The parts of `p` followed by `t`, from inside `t` on, are those of `t`.
proof fn lemma_body_parts_shift(p: Seq<char>, t: Seq<char>, j: int)
    requires
        0 <= j,
    ensures
        body_parts_from(p + t, p.len() + j) == body_parts_from(t, j),
    decreases t.len() - j,
{
    let u = p + t;
    if j < t.len() {
        lemma_char_pos_shift(p, t, '/', j);
        lemma_char_pos_from(t, '/', j);
        match char_pos_from(t, '/', j) {
            Some(k) => {
                lemma_body_parts_shift(p, t, k + 1);
                assert(u.subrange(p.len() + j, p.len() + k) =~= t.subrange(j, k));
                assert(p.len() + k + 1 == p.len() + (k + 1));
            },
            None => {
                assert(u.subrange(p.len() + j, u.len() as int) =~= t.subrange(j, t.len() as int));
            },
        }
    }
}

/// The parts of `s`, `/` and `t` from `k` on are those of `s` then those of `t`.
proof fn lemma_body_parts_append_any(s: Seq<char>, t: Seq<char>, k: int)
    requires
        0 <= k <= s.len(),
    ensures
        body_parts_from(s + seq!['/'] + t, k) == body_parts_from(s, k) + body_parts_from(t, 0),
    decreases s.len() - k,
{
    let u = s + seq!['/'] + t;
    let w = seq!['/'] + t;
    assert(u =~= s + w);
    lemma_char_pos_prefix(s, w, '/', k);
    lemma_char_pos_from(s, '/', k);
    assert(u[s.len() as int] == '/');
    lemma_body_parts_shift(s + seq!['/'], t, 0);
    assert(body_parts_from(u, (s.len() + 1) as int) == body_parts_from(t, 0));
    match char_pos_from(s, '/', k) {
        Some(j) => {
            lemma_body_parts_append_any(s, t, j + 1);
            assert(u.subrange(k, j) =~= s.subrange(k, j));
            assert(body_parts_from(u, k) == kept_part(s.subrange(k, j)) + body_parts_from(u, j + 1));
            assert(body_parts_from(s, k) == kept_part(s.subrange(k, j)) + body_parts_from(s, j + 1));
            assert(kept_part(s.subrange(k, j)) + (body_parts_from(s, j + 1) + body_parts_from(t, 0))
                =~= (kept_part(s.subrange(k, j)) + body_parts_from(s, j + 1)) + body_parts_from(t, 0));
        },
        None => {
            assert(char_pos_from(u, '/', s.len() as int) == Some(s.len() as int));
            assert(u.subrange(k, s.len() as int) =~= s.subrange(k, s.len() as int));
            if k < s.len() {
                assert(body_parts_from(s, k) == kept_part(s.subrange(k, s.len() as int)));
            } else {
                assert(body_parts_from(s, k) == Seq::<Seq<char>>::empty());
                assert(s.subrange(k, s.len() as int) =~= Seq::<char>::empty());
            }
            assert(body_parts_from(u, k) == kept_part(u.subrange(k, s.len() as int)) + body_parts_from(
                u,
                (s.len() + 1) as int,
            ));
            if k == s.len() {
                assert(kept_part(Seq::<char>::empty()) =~= Seq::<Seq<char>>::empty());
                assert(Seq::<Seq<char>>::empty() + body_parts_from(t, 0) =~= body_parts_from(t, 0));
            }
        },
    }
}

/// The parts of `s`, `/` and `t` from `k` on are those of `s` then `t`
/// (unless empty or `.`), when `t` holds no `/`.
proof fn lemma_body_parts_append(s: Seq<char>, t: Seq<char>, k: int)
    requires
        0 <= k <= s.len(),
        no_sep(t),
    ensures
        body_parts_from(s + seq!['/'] + t, k) == body_parts_from(s, k) + kept_part(t),
{
    lemma_body_parts_append_any(s, t, k);
    lemma_body_parts_no_sep(t, 0);
    assert(t.subrange(0, t.len() as int) =~= t);
}

/// The parts of `s`, `/` and `t` are those of `s` then those of `t` read
/// from its start, when `s` is not empty.
pub proof fn lemma_parts_join_any(s: Seq<char>, t: Seq<char>)
    requires
        s.len() > 0,
    ensures
        path_parts(s + seq!['/'] + t) == path_parts(s) + body_parts_from(t, 0),
{
    let u = s + seq!['/'] + t;
    assert(u[0] == s[0]);
    assert(s.len() >= 2 ==> u[1] == s[1]);
    assert(s.len() == 1 ==> u[1] == '/');
    if has_root(s) || starts_with_cur_dir(s) {
        lemma_body_parts_append_any(s, t, 1);
        assert(has_root(u) == has_root(s));
        assert(starts_with_cur_dir(u) == starts_with_cur_dir(s));
        if has_root(s) {
            assert(path_parts(u) =~= seq![seq!['/']] + (body_parts_from(s, 1) + body_parts_from(t, 0)));
        } else {
            assert(path_parts(u) =~= seq![seq!['.']] + (body_parts_from(s, 1) + body_parts_from(t, 0)));
        }
    } else {
        lemma_body_parts_append_any(s, t, 0);
        assert(!has_root(u));
        assert(!starts_with_cur_dir(u));
    }
}

/// The parts of `s`, `/` and `t` are those of `s` then `t` (unless empty or
/// `.`), when `s` is not empty and `t` holds no `/`.
proof fn lemma_parts_join(s: Seq<char>, t: Seq<char>)
    requires
        s.len() > 0,
        no_sep(t),
    ensures
        path_parts(s + seq!['/'] + t) == path_parts(s) + kept_part(t),
{
    lemma_parts_join_any(s, t);
    lemma_body_parts_no_sep(t, 0);
    assert(t.subrange(0, t.len() as int) =~= t);
}

/// Pushing a part without trailing white space, and with no `/` unless it
/// is the root, onto a path none of whose parts ends in white space gives
/// such a path again.
proof fn lemma_push_keeps_parts_trimmed(acc: Seq<char>, t: Seq<char>)
    requires
        parts_trimmed(acc),
        trim_end_spec(t) == t,
        no_sep(t) || t == seq!['/'],
    ensures
        parts_trimmed(path_push_spec(acc, t)),
{
    let r = path_push_spec(acc, t);
    assert(trim_end_spec(seq!['/']) == seq!['/']);
    assert(trim_end_spec(seq!['.']) == seq!['.']);
    if t.len() > 0 && t[0] == '/' {
        assert(t == seq!['/']);
        assert(body_parts_from(seq!['/'], 1) =~= Seq::<Seq<char>>::empty());
        assert(path_parts(r) =~= seq![seq!['/']]);
    } else if acc.len() > 0 && acc.last() != '/' {
        lemma_parts_join(acc, t);
        assert(forall|i: int|
            0 <= i < path_parts(r).len() ==> path_parts(r)[i] == path_parts(acc)[i] || path_parts(
                r,
            )[i] == t);
    } else if acc.len() == 0 {
        assert(r =~= t);
        if starts_with_cur_dir(t) {
            assert(t =~= seq!['.']);
            assert(body_parts_from(t, 1) =~= Seq::<Seq<char>>::empty());
            assert(path_parts(r) =~= seq![seq!['.']]);
        } else {
            lemma_body_parts_no_sep(t, 0);
            assert(t.subrange(0, t.len() as int) =~= t);
        }
    } else {
        let a = acc.drop_last();
        assert(acc =~= a + seq!['/'] + Seq::<char>::empty());
        assert(r =~= a + seq!['/'] + t);
        if a.len() > 0 {
            lemma_parts_join(a, Seq::<char>::empty());
            lemma_parts_join(a, t);
            assert(kept_part(Seq::<char>::empty()) =~= Seq::<Seq<char>>::empty());
            assert(path_parts(acc) =~= path_parts(a));
            assert(forall|i: int|
                0 <= i < path_parts(r).len() ==> path_parts(r)[i] == path_parts(acc)[i]
                    || path_parts(r)[i] == t);
        } else {
            assert(r =~= seq!['/'] + t);
            assert(has_root(r));
            assert forall|i: int| 1 <= i < r.len() implies r[i] != '/' by {
                assert(r[i] == t[i - 1]);
            }
            lemma_body_parts_no_sep(r, 1);
            assert(r.subrange(1, r.len() as int) =~= t);
            assert(forall|i: int|
                0 <= i < path_parts(r).len() ==> path_parts(r)[i] == seq!['/'] || path_parts(r)[i]
                    == t);
        }
    }
}

/// Trimming the end twice is trimming it once.
proof fn lemma_trim_end_idempotent(s: Seq<char>)
    ensures
        trim_end_spec(trim_end_spec(s)) == trim_end_spec(s),
    decreases s.len(),
{
    if s.len() > 0 && crate::utils::text::is_space(s.last()) {
        lemma_trim_end_idempotent(s.drop_last());
    }
}

/// Trimming the end keeps a prefix of the text.
proof fn lemma_trim_end_prefix(s: Seq<char>)
    ensures
        trim_end_spec(s).len() <= s.len(),
        trim_end_spec(s) == s.take(trim_end_spec(s).len() as int),
    decreases s.len(),
{
    if s.len() > 0 && crate::utils::text::is_space(s.last()) {
        lemma_trim_end_prefix(s.drop_last());
        assert(s.drop_last().take(trim_end_spec(s).len() as int) =~= s.take(
            trim_end_spec(s).len() as int,
        ));
    } else {
        assert(s.take(s.len() as int) =~= s);
    }
}

/// The parts of a path cut at `/` hold no `/`.
proof fn lemma_body_parts_no_sep_elems(s: Seq<char>, k: int)
    requires
        0 <= k,
    ensures
        forall|i: int|
            0 <= i < body_parts_from(s, k).len() ==> no_sep(#[trigger] body_parts_from(s, k)[i]),
    decreases s.len() - k,
{
    if k < s.len() {
        lemma_char_pos_from(s, '/', k);
        match char_pos_from(s, '/', k) {
            Some(j) => {
                lemma_body_parts_no_sep_elems(s, j + 1);
                assert(no_sep(s.subrange(k, j)));
                let head = kept_part(s.subrange(k, j));
                assert forall|i: int|
                    0 <= i < body_parts_from(s, k).len() implies no_sep(
                    #[trigger] body_parts_from(s, k)[i],
                ) by {
                    if i >= head.len() {
                        assert(body_parts_from(s, k)[i] == body_parts_from(s, j + 1)[i
                            - head.len()]);
                    } else {
                        assert(body_parts_from(s, k)[i] == s.subrange(k, j));
                    }
                }
            },
            None => {
                assert(no_sep(s.subrange(k, s.len() as int)));
            },
        }
    }
}

/// Each part of a path is the root or holds no `/`.
proof fn lemma_parts_shape(p: Seq<char>)
    ensures
        forall|i: int|
            0 <= i < path_parts(p).len() ==> no_sep(#[trigger] path_parts(p)[i]) || path_parts(
                p,
            )[i] == seq!['/'],
{
    if has_root(p) || starts_with_cur_dir(p) {
        lemma_body_parts_no_sep_elems(p, 1);
        assert(no_sep(seq!['.']));
        assert forall|i: int| 0 <= i < path_parts(p).len() implies no_sep(
            #[trigger] path_parts(p)[i],
        ) || path_parts(p)[i] == seq!['/'] by {
            if i > 0 {
                assert(path_parts(p)[i] == body_parts_from(p, 1)[i - 1]);
            }
        }
    } else {
        lemma_body_parts_no_sep_elems(p, 0);
    }
}

/// Pushing trimmed parts one after the other keeps every part trimmed.
proof fn lemma_push_trimmed_parts(acc: Seq<char>, parts: Seq<Seq<char>>)
    requires
        parts_trimmed(acc),
        forall|i: int|
            0 <= i < parts.len() ==> no_sep(#[trigger] parts[i]) || parts[i] == seq!['/'],
    ensures
        parts_trimmed(push_trimmed_parts(acc, parts)),
    decreases parts.len(),
{
    if parts.len() > 0 {
        let q = parts[0];
        let t = trim_end_spec(q);
        lemma_trim_end_idempotent(q);
        lemma_trim_end_prefix(q);
        if q == seq!['/'] {
            assert(!crate::utils::text::is_space('/'));
            assert(seq!['/'].drop_last() =~= Seq::<char>::empty());
            assert(t == q);
        } else {
            assert(no_sep(q));
            assert forall|i: int| 0 <= i < t.len() implies t[i] != '/' by {
                assert(t[i] == q[i]);
            }
        }
        lemma_push_keeps_parts_trimmed(acc, t);
        assert forall|i: int|
            0 <= i < parts.drop_first().len() implies no_sep(#[trigger] parts.drop_first()[i])
            || parts.drop_first()[i] == seq!['/'] by {
            assert(parts.drop_first()[i] == parts[i + 1]);
        }
        lemma_push_trimmed_parts(path_push_spec(acc, t), parts.drop_first());
    }
}

/// No part of a path that `trim_endspaces_in_files` gives ends in white space.
pub proof fn lemma_trim_endspaces_leaves_no_trailing_space(p: Seq<char>)
    ensures
        parts_trimmed(trim_endspaces_spec(p)),
{
    assert(path_parts(Seq::<char>::empty()) =~= Seq::<Seq<char>>::empty());
    lemma_parts_shape(p);
    lemma_push_trimmed_parts(Seq::empty(), path_parts(p));
}

/// Whether the path `a` starts with the path `b`, part by part, as
/// `Path::starts_with` compares them.
pub open spec fn path_starts_with(a: Seq<char>, b: Seq<char>) -> bool {
    path_parts(b).len() <= path_parts(a).len() && path_parts(a).take(path_parts(b).len() as int)
        == path_parts(b)
}

/// Whether `n` is one plain part of a path: not empty, without `/`, and
/// neither `.` nor `..`.
pub open spec fn is_plain_name(n: Seq<char>) -> bool {
    n.len() > 0 && no_sep(n) && n != seq!['.'] && n != seq!['.', '.']
}

/// Two texts that differ only in a last piece that holds no `/` have, from
/// `k` on, parts that differ only in the last one.
proof fn lemma_body_parts_last_piece(q: Seq<char>, d1: Seq<char>, d2: Seq<char>, k: int)
    requires
        0 <= k <= q.len(),
        no_sep(d1),
        no_sep(d2),
        d1.len() > 0,
        d2.len() > 0,
        d1.len() != d2.len(),
        d1 != seq!['.'],
        d2 != seq!['.'],
    ensures
        body_parts_from(q + d1, k).len() == body_parts_from(q + d2, k).len(),
        body_parts_from(q + d1, k).len() > 0,
        body_parts_from(q + d1, k).drop_last() == body_parts_from(q + d2, k).drop_last(),
        body_parts_from(q + d1, k).last() != body_parts_from(q + d2, k).last(),
    decreases q.len() - k,
{
    lemma_char_pos_prefix(q, d1, '/', k);
    lemma_char_pos_prefix(q, d2, '/', k);
    lemma_char_pos_from(q, '/', k);
    match char_pos_from(q, '/', k) {
        Some(j) => {
            lemma_body_parts_last_piece(q, d1, d2, j + 1);
            let h = kept_part(q.subrange(k, j));
            assert((q + d1).subrange(k, j) =~= q.subrange(k, j));
            assert((q + d2).subrange(k, j) =~= q.subrange(k, j));
            let b1 = body_parts_from(q + d1, j + 1);
            let b2 = body_parts_from(q + d2, j + 1);
            assert(body_parts_from(q + d1, k) == h + b1);
            assert(body_parts_from(q + d2, k) == h + b2);
            assert((h + b1).drop_last() =~= h + b1.drop_last());
            assert((h + b2).drop_last() =~= h + b2.drop_last());
        },
        None => {
            lemma_char_pos_shift(q, d1, '/', 0);
            lemma_char_pos_shift(q, d2, '/', 0);
            lemma_char_pos_from(d1, '/', 0);
            lemma_char_pos_from(d2, '/', 0);
            let w1 = (q + d1).subrange(k, (q + d1).len() as int);
            let w2 = (q + d2).subrange(k, (q + d2).len() as int);
            assert(w1 =~= q.subrange(k, q.len() as int) + d1);
            assert(w2 =~= q.subrange(k, q.len() as int) + d2);
            assert(w1 != seq!['.']) by {
                if w1 == seq!['.'] {
                    assert(d1 =~= w1);
                }
            }
            assert(w2 != seq!['.']) by {
                if w2 == seq!['.'] {
                    assert(d2 =~= w2);
                }
            }
            assert(body_parts_from(q + d1, k) == seq![w1]);
            assert(body_parts_from(q + d2, k) == seq![w2]);
            assert(seq![w1].drop_last() =~= seq![w2].drop_last());
            assert(w1.len() != w2.len());
        },
    }
}

/// Two paths that differ only in a last piece that holds no `/` have parts
/// that differ only in the last one.
pub proof fn lemma_parts_last_piece(q: Seq<char>, d1: Seq<char>, d2: Seq<char>)
    requires
        q.len() > 0,
        no_sep(d1),
        no_sep(d2),
        d1.len() > 0,
        d2.len() > 0,
        d1.len() != d2.len(),
        d1 != seq!['.'],
        d2 != seq!['.'],
    ensures
        path_parts(q + d1).len() == path_parts(q + d2).len(),
        path_parts(q + d1).len() > 0,
        path_parts(q + d1).drop_last() == path_parts(q + d2).drop_last(),
        path_parts(q + d1).last() != path_parts(q + d2).last(),
{
    let u1 = q + d1;
    let u2 = q + d2;
    assert(u1[0] == q[0] && u2[0] == q[0]);
    assert(q.len() >= 2 ==> u1[1] == q[1] && u2[1] == q[1]);
    assert(q.len() == 1 ==> u1[1] == d1[0] && u2[1] == d2[0]);
    assert(d1[0] != '/' && d2[0] != '/');
    assert(has_root(u1) == has_root(q) && has_root(u2) == has_root(q));
    assert(starts_with_cur_dir(u1) == starts_with_cur_dir(u2));
    if has_root(q) || starts_with_cur_dir(u1) {
        lemma_body_parts_last_piece(q, d1, d2, 1);
        let h = if has_root(q) { seq![seq!['/']] } else { seq![seq!['.']] };
        let b1 = body_parts_from(u1, 1);
        let b2 = body_parts_from(u2, 1);
        assert(path_parts(u1) == h + b1);
        assert(path_parts(u2) == h + b2);
        assert((h + b1).drop_last() =~= h + b1.drop_last());
        assert((h + b2).drop_last() =~= h + b2.drop_last());
    } else {
        lemma_body_parts_last_piece(q, d1, d2, 0);
    }
}

/// Pushing a plain name onto a path adds it as one last part, which is then
/// the path's file name.
pub proof fn lemma_push_plain_name(base: Seq<char>, name: Seq<char>)
    requires
        is_plain_name(name),
    ensures
        path_parts(path_push_spec(base, name)) == path_parts(base).push(name),
        file_name_spec(path_push_spec(base, name)) == Some(name),
{
    let r = path_push_spec(base, name);
    assert(name[0] != '/');
    assert(kept_part(name) == seq![name]);
    if base.len() > 0 && base.last() != '/' {
        lemma_parts_join(base, name);
    } else if base.len() == 0 {
        assert(r =~= name);
        assert(!starts_with_cur_dir(name)) by {
            if starts_with_cur_dir(name) {
                assert(name =~= seq!['.']);
            }
        }
        lemma_body_parts_no_sep(name, 0);
        assert(name.subrange(0, name.len() as int) =~= name);
        assert(path_parts(base) =~= Seq::<Seq<char>>::empty());
    } else {
        let a = base.drop_last();
        assert(base =~= a + seq!['/'] + Seq::<char>::empty());
        assert(r =~= a + seq!['/'] + name);
        if a.len() > 0 {
            lemma_parts_join(a, Seq::<char>::empty());
            lemma_parts_join(a, name);
            assert(kept_part(Seq::<char>::empty()) =~= Seq::<Seq<char>>::empty());
            assert(path_parts(base) =~= path_parts(a));
        } else {
            assert(base =~= seq!['/']);
            assert(r =~= seq!['/'] + name);
            assert(has_root(r));
            assert forall|i: int| 1 <= i < r.len() implies r[i] != '/' by {
                assert(r[i] == name[i - 1]);
            }
            lemma_body_parts_no_sep(r, 1);
            assert(r.subrange(1, r.len() as int) =~= name);
            assert(body_parts_from(base, 1) =~= Seq::<Seq<char>>::empty());
        }
    }
    assert(path_parts(r) =~= path_parts(base).push(name));
    assert(path_parts(r).last() == name);
    assert(name != seq!['/']) by {
        if name == seq!['/'] {
            assert(name[0] == '/');
        }
    }
}

} // verus!
