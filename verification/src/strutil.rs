//! Character-level string helpers shared by the URL and manifest logic.
//!
//! Exec code works on `Vec<char>` so that every transformation is verified
//! against `Seq<char>` models; conversion to and from `String` happens at the
//! edges of the library.

use vstd::prelude::*;
use vstd::string::*;

verus! {

/// Relies on `String::push`: appends exactly one character to the string.
#[verifier::external_body]
pub fn push_char(s: &mut String, c: char)
    ensures
        final(s)@ == old(s)@.push(c),
{
    s.push(c);
}

/// The characters of a string, as a vector.
pub fn to_chars(s: &str) -> (r: Vec<char>)
    ensures
        r@ == s@,
{
    let n = s.unicode_len();
    let mut v: Vec<char> = Vec::new();
    let mut i: usize = 0;
    while i < n
        invariant
            i <= n,
            n == s@.len(),
            v@ == s@.subrange(0, i as int),
        decreases n - i,
    {
        v.push(s.get_char(i));
        i = i + 1;
    }
    assert(v@ =~= s@);
    v
}

/// The string holding exactly the given characters.
pub fn from_chars(v: &Vec<char>) -> (r: String)
    ensures
        r@ == v@,
{
    let mut s = String::new();
    let mut i: usize = 0;
    while i < v.len()
        invariant
            i <= v@.len(),
            s@ == v@.subrange(0, i as int),
        decreases v@.len() - i,
    {
        push_char(&mut s, v[i]);
        i = i + 1;
    }
    assert(s@ =~= v@);
    s
}

/// Appends all characters of `src` to `dst`.
pub fn extend_chars(dst: &mut Vec<char>, src: &Vec<char>)
    ensures
        final(dst)@ == old(dst)@ + src@,
{
    let mut i: usize = 0;
    while i < src.len()
        invariant
            i <= src@.len(),
            dst@ == old(dst)@ + src@.subrange(0, i as int),
        decreases src@.len() - i,
    {
        dst.push(src[i]);
        i = i + 1;
    }
    assert(dst@ =~= old(dst)@ + src@);
}

/// Whether two character vectors hold the same characters.
pub fn chars_eq(a: &Vec<char>, b: &Vec<char>) -> (r: bool)
    ensures
        r == (a@ == b@),
{
    if a.len() != b.len() {
        assert(a@ != b@);
        return false;
    }
    let mut i: usize = 0;
    while i < a.len()
        invariant
            i <= a@.len(),
            a@.len() == b@.len(),
            forall|j: int| 0 <= j < i ==> a@[j] == b@[j],
        decreases a@.len() - i,
    {
        if a[i] != b[i] {
            return false;
        }
        i = i + 1;
    }
    assert(a@ =~= b@);
    true
}

/// Whether the characters of `v` are exactly those of the literal `s`.
pub fn chars_eq_str(v: &Vec<char>, s: &str) -> (r: bool)
    ensures
        r == (v@ == s@),
{
    let sv = to_chars(s);
    chars_eq(v, &sv)
}

/// Whether `s` ends with the suffix `suf`.
pub open spec fn ends_with(s: Seq<char>, suf: Seq<char>) -> bool {
    s.len() >= suf.len() && s.subrange(s.len() - suf.len(), s.len() as int) == suf
}

/// Whether `s` starts with the prefix `pre`.
pub open spec fn starts_with(s: Seq<char>, pre: Seq<char>) -> bool {
    s.len() >= pre.len() && s.subrange(0, pre.len() as int) == pre
}

/// Exec check for `ends_with`.
pub fn chars_end_with(v: &Vec<char>, suf: &Vec<char>) -> (r: bool)
    ensures
        r == ends_with(v@, suf@),
{
    let vn = v.len();
    let sn = suf.len();
    if vn < sn {
        return false;
    }
    let start = vn - sn;
    let mut i: usize = 0;
    while i < sn
        invariant
            i <= sn,
            sn == suf@.len(),
            vn == v@.len(),
            sn <= vn,
            start == vn - sn,
            forall|j: int| 0 <= j < i ==> v@[start + j] == suf@[j],
        decreases sn - i,
    {
        if v[start + i] != suf[i] {
            assert(v@.subrange(v@.len() - suf@.len(), v@.len() as int)[i as int] != suf@[i as int]);
            return false;
        }
        i = i + 1;
    }
    assert(v@.subrange(v@.len() - suf@.len(), v@.len() as int) =~= suf@);
    true
}

/// Exec check for `starts_with`.
pub fn chars_start_with(v: &Vec<char>, pre: &Vec<char>) -> (r: bool)
    ensures
        r == starts_with(v@, pre@),
{
    if v.len() < pre.len() {
        return false;
    }
    let mut i: usize = 0;
    while i < pre.len()
        invariant
            i <= pre@.len(),
            pre@.len() <= v@.len(),
            forall|j: int| 0 <= j < i ==> v@[j] == pre@[j],
        decreases pre@.len() - i,
    {
        if v[i] != pre[i] {
            assert(v@.subrange(0, pre@.len() as int)[i as int] != pre@[i as int]);
            return false;
        }
        i = i + 1;
    }
    assert(v@.subrange(0, pre@.len() as int) =~= pre@);
    true
}

/// Exec search for the first occurrence of `c` in `v`.
pub fn find_char(v: &Vec<char>, c: char) -> (r: Option<usize>)
    ensures
        match r {
            Some(i) => 0 <= i < v@.len() && v@[i as int] == c && forall|j: int|
                0 <= j < i ==> v@[j] != c,
            None => forall|j: int| 0 <= j < v@.len() ==> v@[j] != c,
        },
{
    let mut i: usize = 0;
    while i < v.len()
        invariant
            i <= v@.len(),
            forall|j: int| 0 <= j < i ==> v@[j] != c,
        decreases v@.len() - i,
    {
        if v[i] == c {
            return Some(i);
        }
        i = i + 1;
    }
    None
}

/// The characters of `v` from `from` (inclusive) to `to` (exclusive).
pub fn sub_chars(v: &Vec<char>, from: usize, to: usize) -> (r: Vec<char>)
    requires
        from <= to <= v@.len(),
    ensures
        r@ == v@.subrange(from as int, to as int),
{
    let mut out: Vec<char> = Vec::new();
    let mut i: usize = from;
    while i < to
        invariant
            from <= i <= to <= v@.len(),
            out@ == v@.subrange(from as int, i as int),
        decreases to - i,
    {
        out.push(v[i]);
        i = i + 1;
    }
    assert(out@ =~= v@.subrange(from as int, to as int));
    out
}

/// Splitting on `c`, carrying the segment under construction.
pub open spec fn split_acc(s: Seq<char>, c: char, cur: Seq<char>) -> Seq<Seq<char>>
    decreases s.len(),
{
    if s.len() == 0 {
        seq![cur]
    } else if s[0] == c {
        seq![cur] + split_acc(s.drop_first(), c, Seq::empty())
    } else {
        split_acc(s.drop_first(), c, cur.push(s[0]))
    }
}

/// The segments of `s` between occurrences of `c`, empty segments included;
/// there is always at least one segment.
pub open spec fn split_char(s: Seq<char>, c: char) -> Seq<Seq<char>> {
    split_acc(s, c, Seq::empty())
}

/// Whether `s` is free of the character `c`.
pub open spec fn free_of(s: Seq<char>, c: char) -> bool {
    forall|k: int| 0 <= k < s.len() ==> s[k] != c
}

/// Every segment of a split is free of the splitting character, provided
/// the carried segment is.
pub proof fn lemma_split_acc_free(s: Seq<char>, c: char, cur: Seq<char>)
    requires
        free_of(cur, c),
    ensures
        forall|j: int|
            0 <= j < split_acc(s, c, cur).len() ==> free_of(#[trigger] split_acc(s, c, cur)[j], c),
    decreases s.len(),
{
    if s.len() == 0 {
        assert(split_acc(s, c, cur) == seq![cur]);
        assert(split_acc(s, c, cur)[0] == cur);
    } else if s[0] == c {
        assert(free_of(Seq::empty(), c));
        lemma_split_acc_free(s.drop_first(), c, Seq::empty());
        let rest = split_acc(s.drop_first(), c, Seq::empty());
        assert forall|j: int|
            0 <= j < split_acc(s, c, cur).len() implies free_of(
            #[trigger] split_acc(s, c, cur)[j],
            c,
        ) by {
            if j == 0 {
                assert((seq![cur] + rest)[0] == cur);
            } else {
                assert((seq![cur] + rest)[j] == rest[j - 1]);
            }
        }
    } else {
        assert(free_of(cur.push(s[0]), c)) by {
            assert(forall|k: int| 0 <= k < cur.len() ==> cur.push(s[0])[k] == cur[k]);
            assert(cur.push(s[0])[cur.len() as int] == s[0]);
        }
        lemma_split_acc_free(s.drop_first(), c, cur.push(s[0]));
        assert forall|j: int|
            0 <= j < split_acc(s, c, cur).len() implies free_of(
            #[trigger] split_acc(s, c, cur)[j],
            c,
        ) by {
            assert(split_acc(s, c, cur) == split_acc(s.drop_first(), c, cur.push(s[0])));
            assert(split_acc(s, c, cur)[j] == split_acc(s.drop_first(), c, cur.push(s[0]))[j]);
        }
    }
}

/// Filtering the empty segments keeps every segment free of `c`, provided
/// all were.
pub proof fn lemma_keep_nonempty_free(segs: Seq<Seq<char>>, c: char)
    requires
        forall|j: int| 0 <= j < segs.len() ==> free_of(#[trigger] segs[j], c),
    ensures
        forall|j: int|
            0 <= j < keep_nonempty(segs).len() ==> free_of(#[trigger] keep_nonempty(segs)[j], c),
    decreases segs.len(),
{
    if segs.len() == 0 {
    } else {
        assert(forall|j: int|
            0 <= j < segs.drop_first().len() ==> #[trigger] segs.drop_first()[j] == segs[j + 1]);
        lemma_keep_nonempty_free(segs.drop_first(), c);
        let rest = keep_nonempty(segs.drop_first());
        if segs[0].len() > 0 {
            assert forall|j: int|
                0 <= j < keep_nonempty(segs).len() implies free_of(
                #[trigger] keep_nonempty(segs)[j],
                c,
            ) by {
                if j == 0 {
                    assert((seq![segs[0]] + rest)[0] == segs[0]);
                } else {
                    assert((seq![segs[0]] + rest)[j] == rest[j - 1]);
                }
            }
        }
    }
}

/// A prefix free of the splitting character folds whole into the carried
/// segment.
pub proof fn lemma_split_prefix_free(a: Seq<char>, t: Seq<char>, c: char, cur: Seq<char>)
    requires
        free_of(a, c),
    ensures
        split_acc(a + t, c, cur) == split_acc(t, c, cur + a),
    decreases a.len(),
{
    if a.len() == 0 {
        assert(a + t =~= t);
        assert(cur + a =~= cur);
    } else {
        assert((a + t)[0] == a[0]);
        assert(a[0] != c);
        assert((a + t).drop_first() =~= a.drop_first() + t);
        assert(free_of(a.drop_first(), c)) by {
            assert(forall|k: int| 0 <= k < a.drop_first().len() ==> a.drop_first()[k] == a[k + 1]);
        }
        lemma_split_prefix_free(a.drop_first(), t, c, cur.push(a[0]));
        assert(cur.push(a[0]) + a.drop_first() =~= cur + a);
        assert(split_acc(a + t, c, cur) == split_acc(a.drop_first() + t, c, cur.push(a[0])));
    }
}

/// Exec split of a character vector on `c`.
pub fn split_chars(v: &Vec<char>, c: char) -> (r: Vec<Vec<char>>)
    ensures
        r.deep_view() == split_char(v@, c),
        r@.len() >= 1,
{
    let n = v.len();
    let mut out: Vec<Vec<char>> = Vec::new();
    let mut cur: Vec<char> = Vec::new();
    let mut i: usize = 0;
    proof {
        assert(v@.subrange(0, n as int) =~= v@);
        assert(out.deep_view() + split_acc(v@, c, cur@) =~~= split_acc(v@, c, Seq::empty()));
    }
    while i < n
        invariant
            i <= n,
            n == v@.len(),
            split_char(v@, c) == out.deep_view() + split_acc(
                v@.subrange(i as int, n as int),
                c,
                cur@,
            ),
        decreases n - i,
    {
        let ghost rest = v@.subrange(i as int, n as int);
        assert(rest[0] == v@[i as int]);
        assert(rest.drop_first() =~= v@.subrange(i + 1, n as int));
        let ghost out0 = out.deep_view();
        let ghost curv = cur@;
        if v[i] == c {
            let done = cur;
            cur = Vec::new();
            out.push(done);
            proof {
                assert(split_acc(rest, c, curv) == seq![curv] + split_acc(
                    rest.drop_first(),
                    c,
                    Seq::empty(),
                ));
                assert(out.deep_view() =~~= out0.push(curv));
                assert(out0.push(curv) + split_acc(rest.drop_first(), c, cur@) =~~= out0 + (seq![
                    curv,
                ] + split_acc(rest.drop_first(), c, cur@)));
            }
        } else {
            cur.push(v[i]);
            proof {
                assert(split_acc(rest, c, curv) == split_acc(rest.drop_first(), c, cur@));
            }
        }
        i = i + 1;
    }
    proof {
        assert(v@.subrange(n as int, n as int) =~= Seq::<char>::empty());
        assert(split_acc(Seq::empty(), c, cur@) == seq![cur@]);
    }
    let ghost out0 = out.deep_view();
    let ghost curv = cur@;
    out.push(cur);
    proof {
        assert(out.deep_view() =~~= out0.push(curv));
        assert(out0.push(curv) =~~= out0 + seq![curv]);
    }
    out
}

/// The non-empty segments, in order.
pub open spec fn keep_nonempty(segs: Seq<Seq<char>>) -> Seq<Seq<char>>
    decreases segs.len(),
{
    if segs.len() == 0 {
        Seq::empty()
    } else {
        let rest = keep_nonempty(segs.drop_first());
        if segs[0].len() > 0 {
            seq![segs[0]] + rest
        } else {
            rest
        }
    }
}

/// Every kept segment is non-empty.
pub proof fn lemma_keep_nonempty_elems(segs: Seq<Seq<char>>)
    ensures
        forall|j: int| 0 <= j < keep_nonempty(segs).len() ==> #[trigger] keep_nonempty(segs)[j].len() > 0,
    decreases segs.len(),
{
    if segs.len() == 0 {
    } else {
        lemma_keep_nonempty_elems(segs.drop_first());
        let rest = keep_nonempty(segs.drop_first());
        if segs[0].len() > 0 {
            assert forall|j: int|
                0 <= j < keep_nonempty(segs).len() implies #[trigger] keep_nonempty(
                segs,
            )[j].len() > 0 by {
                if j > 0 {
                    assert((seq![segs[0]] + rest)[j] == rest[j - 1]);
                }
            }
        }
    }
}

/// Exec filter of the empty segments.
pub fn nonempty_segments(segs: &Vec<Vec<char>>) -> (r: Vec<Vec<char>>)
    ensures
        r.deep_view() == keep_nonempty(segs.deep_view()),
{
    let n = segs.len();
    let mut out: Vec<Vec<char>> = Vec::new();
    let mut i: usize = 0;
    proof {
        assert(segs.deep_view().len() == n);
        assert(segs.deep_view().subrange(0, n as int) =~~= segs.deep_view());
        assert(out.deep_view() + keep_nonempty(segs.deep_view()) =~~= keep_nonempty(
            segs.deep_view(),
        ));
    }
    while i < n
        invariant
            i <= n,
            n == segs@.len(),
            segs.deep_view().len() == n,
            keep_nonempty(segs.deep_view()) == out.deep_view() + keep_nonempty(
                segs.deep_view().subrange(i as int, n as int),
            ),
        decreases n - i,
    {
        let ghost rest = segs.deep_view().subrange(i as int, n as int);
        assert(rest[0] == segs.deep_view()[i as int]);
        assert(segs.deep_view()[i as int] == segs@[i as int]@);
        assert(rest.drop_first() =~~= segs.deep_view().subrange(i + 1, n as int));
        let ghost out0 = out.deep_view();
        if segs[i].len() > 0 {
            let seg = sub_chars(&segs[i], 0, segs[i].len());
            assert(seg@ =~= segs@[i as int]@);
            out.push(seg);
            proof {
                assert(keep_nonempty(rest) == seq![rest[0]] + keep_nonempty(rest.drop_first()));
                assert(out.deep_view() =~~= out0.push(rest[0]));
                assert(out0.push(rest[0]) + keep_nonempty(rest.drop_first()) =~~= out0 + (seq![
                    rest[0],
                ] + keep_nonempty(rest.drop_first())));
            }
        } else {
            proof {
                assert(keep_nonempty(rest) == keep_nonempty(rest.drop_first()));
            }
        }
        i = i + 1;
    }
    proof {
        assert(segs.deep_view().subrange(n as int, n as int) =~~= Seq::<Seq<char>>::empty());
        assert(keep_nonempty(Seq::<Seq<char>>::empty()) == Seq::<Seq<char>>::empty());
        assert(out.deep_view() + Seq::<Seq<char>>::empty() =~~= out.deep_view());
    }
    out
}

/// A line with one trailing carriage return removed.
pub open spec fn strip_cr(line: Seq<char>) -> Seq<char> {
    if line.len() > 0 && line.last() == '\r' {
        line.drop_last()
    } else {
        line
    }
}

/// The lines of a text: split on newlines, each with a trailing carriage
/// return removed.
pub open spec fn text_lines(text: Seq<char>) -> Seq<Seq<char>> {
    split_char(text, '\n').map_values(|l: Seq<char>| strip_cr(l))
}

/// Exec split of a text into lines.
pub fn lines_of(text: &str) -> (r: Vec<Vec<char>>)
    ensures
        r.deep_view() == text_lines(text@),
{
    let chars = to_chars(text);
    let raw = split_chars(&chars, '\n');
    let ghost rawv = raw.deep_view();
    let n = raw.len();
    let mut out: Vec<Vec<char>> = Vec::new();
    let mut i: usize = 0;
    while i < n
        invariant
            i <= n,
            n == raw@.len(),
            rawv == raw.deep_view(),
            rawv.len() == n,
            out@.len() == i,
            forall|j: int| 0 <= j < i ==> #[trigger] out.deep_view()[j] == strip_cr(rawv[j]),
        decreases n - i,
    {
        let line = &raw[i];
        let ln = line.len();
        assert(line@ == rawv[i as int]);
        let stripped: Vec<char> = if ln > 0 && line[ln - 1] == '\r' {
            let s = sub_chars(line, 0, ln - 1);
            assert(s@ =~= strip_cr(rawv[i as int]));
            s
        } else {
            let s = sub_chars(line, 0, ln);
            assert(s@ =~= strip_cr(rawv[i as int]));
            s
        };
        let ghost prev = out.deep_view();
        let ghost sv = stripped@;
        out.push(stripped);
        proof {
            assert(forall|j: int| 0 <= j < i ==> #[trigger] out.deep_view()[j] == prev[j]);
            assert(out.deep_view()[i as int] == sv);
        }
        i = i + 1;
    }
    proof {
        assert(out.deep_view() =~~= text_lines(text@));
    }
    out
}

/// `s` with every occurrence of `from` replaced by `to`.
pub open spec fn replaced(s: Seq<char>, from: char, to: char) -> Seq<char> {
    Seq::new(s.len(), |i: int| if s[i] == from { to } else { s[i] })
}

/// Exec replacement of every `from` by `to`.
pub fn replace_chars(v: &Vec<char>, from: char, to: char) -> (r: Vec<char>)
    ensures
        r@ == replaced(v@, from, to),
{
    let mut out: Vec<char> = Vec::new();
    let mut i: usize = 0;
    while i < v.len()
        invariant
            i <= v@.len(),
            out@ == replaced(v@, from, to).subrange(0, i as int),
        decreases v@.len() - i,
    {
        if v[i] == from {
            out.push(to);
        } else {
            out.push(v[i]);
        }
        assert(out@ =~= replaced(v@, from, to).subrange(0, i + 1));
        i = i + 1;
    }
    assert(out@ =~= replaced(v@, from, to));
    out
}

/// The start of the last occurrence of `pat` in `s`, if any.
pub open spec fn rfind(s: Seq<char>, pat: Seq<char>) -> Option<int>
    decreases s.len(),
{
    if s.len() < pat.len() || pat.len() == 0 {
        None
    } else if s.subrange(s.len() - pat.len(), s.len() as int) == pat {
        Some(s.len() - pat.len())
    } else {
        rfind(s.drop_last(), pat)
    }
}

/// Exec search for the last occurrence of `pat` in `v`.
pub fn rfind_chars(v: &Vec<char>, pat: &Vec<char>) -> (r: Option<usize>)
    requires
        pat@.len() > 0,
    ensures
        match r {
            Some(i) => rfind(v@, pat@) == Some(i as int) && i + pat@.len() <= v@.len(),
            None => rfind(v@, pat@) is None,
        },
{
    let n = v.len();
    let m = pat.len();
    if n < m {
        return None;
    }
    let mut w: usize = n;
    proof {
        assert(v@.subrange(0, n as int) =~= v@);
    }
    while w >= m
        invariant
            m <= w + 1,
            w <= n,
            m == pat@.len(),
            n == v@.len(),
            m >= 1,
            rfind(v@, pat@) == rfind(v@.subrange(0, w as int), pat@),
        decreases w,
    {
        let ghost pre = v@.subrange(0, w as int);
        let window = sub_chars(v, w - m, w);
        assert(window@ =~= pre.subrange(pre.len() - pat@.len(), pre.len() as int));
        if chars_eq(&window, pat) {
            assert(rfind(pre, pat@) == Some(w - m));
            return Some(w - m);
        }
        assert(pre.drop_last() =~= v@.subrange(0, w - 1));
        w = w - 1;
    }
    assert(v@.subrange(0, w as int).len() < pat@.len());
    None
}

/// Decimal digits of `n`, most significant first.
pub open spec fn dec_digits(n: nat) -> Seq<char>
    decreases n,
{
    if n < 10 {
        seq![digit_char(n)]
    } else {
        dec_digits(n / 10) + seq![digit_char(n % 10)]
    }
}

/// The character for one decimal digit.
pub open spec fn digit_char(d: nat) -> char {
    if d == 0 { '0' }
    else if d == 1 { '1' }
    else if d == 2 { '2' }
    else if d == 3 { '3' }
    else if d == 4 { '4' }
    else if d == 5 { '5' }
    else if d == 6 { '6' }
    else if d == 7 { '7' }
    else if d == 8 { '8' }
    else { '9' }
}

fn digit_char_exec(d: u32) -> (r: char)
    requires
        d < 10,
    ensures
        r == digit_char(d as nat),
{
    if d == 0 { '0' }
    else if d == 1 { '1' }
    else if d == 2 { '2' }
    else if d == 3 { '3' }
    else if d == 4 { '4' }
    else if d == 5 { '5' }
    else if d == 6 { '6' }
    else if d == 7 { '7' }
    else if d == 8 { '8' }
    else { '9' }
}

/// The decimal rendering of `n`, as characters.
pub fn u32_dec_chars(n: u32) -> (r: Vec<char>)
    ensures
        r@ == dec_digits(n as nat),
    decreases n,
{
    if n < 10 {
        let mut out: Vec<char> = Vec::new();
        out.push(digit_char_exec(n));
        assert(out@ =~= dec_digits(n as nat));
        out
    } else {
        let mut out = u32_dec_chars(n / 10);
        out.push(digit_char_exec(n % 10));
        assert(out@ =~= dec_digits(n as nat));
        out
    }
}

} // verus!
