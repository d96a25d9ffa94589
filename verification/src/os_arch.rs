//! The Arch package workflow: reading the package manager's `Key : value`
//! info lines, and filtering the project-page links that are worth trying as
//! repository candidates.

use vstd::prelude::*;

use crate::strutil::{
    chars_eq_str, chars_start_with, from_chars, lines_of, starts_with, sub_chars, text_lines,
    to_chars,
};

verus! {

/// Whether a character ends the key of an info line.
pub open spec fn kv_stop(c: char) -> bool {
    c == ':' || c == ' ' || c == '\t'
}

/// The key of an info line: its longest prefix free of colons and blanks.
pub open spec fn kv_key(line: Seq<char>) -> Seq<char>
    decreases line.len(),
{
    if line.len() == 0 {
        Seq::empty()
    } else if kv_stop(line[0]) {
        Seq::empty()
    } else {
        seq![line[0]] + kv_key(line.drop_first())
    }
}

/// The number of leading blanks.
pub open spec fn blank_len(s: Seq<char>) -> int
    decreases s.len(),
{
    if s.len() == 0 {
        0
    } else if s[0] == ' ' || s[0] == '\t' {
        1 + blank_len(s.drop_first())
    } else {
        0
    }
}

/// The key and value of a package-info line of the shape
/// `Key    : value`: a non-empty key, at least one blank, a colon, one
/// space, and a non-empty value.
pub open spec fn pacman_kv(line: Seq<char>) -> Option<(Seq<char>, Seq<char>)> {
    let k = kv_key(line);
    let rest = line.skip(k.len() as int);
    let w = blank_len(rest);
    let rest2 = rest.skip(w);
    if k.len() > 0 && w > 0 && rest2.len() >= 3 && rest2[0] == ':' && rest2[1] == ' ' {
        Some((k, rest2.skip(2)))
    } else {
        None
    }
}

proof fn lemma_kv_key(line: Seq<char>)
    ensures
        0 <= kv_key(line).len() <= line.len(),
        forall|j: int|
            0 <= j < kv_key(line).len() ==> kv_key(line)[j] == line[j] && !kv_stop(line[j]),
        kv_key(line).len() < line.len() ==> kv_stop(line[kv_key(line).len() as int]),
    decreases line.len(),
{
    if line.len() == 0 {
    } else if kv_stop(line[0]) {
    } else {
        lemma_kv_key(line.drop_first());
        assert(forall|j: int|
            0 <= j < line.drop_first().len() ==> line.drop_first()[j] == line[j + 1]);
        assert(kv_key(line) == seq![line[0]] + kv_key(line.drop_first()));
        assert forall|j: int|
            0 <= j < kv_key(line).len() implies kv_key(line)[j] == line[j] && !kv_stop(
            line[j],
        ) by {
            if j == 0 {
                assert((seq![line[0]] + kv_key(line.drop_first()))[0] == line[0]);
            } else {
                assert((seq![line[0]] + kv_key(line.drop_first()))[j] == kv_key(
                    line.drop_first(),
                )[j - 1]);
                assert(kv_key(line.drop_first())[j - 1] == line.drop_first()[j - 1]);
                assert(line.drop_first()[j - 1] == line[j]);
            }
        }
    }
}

proof fn lemma_blank_len(s: Seq<char>)
    ensures
        0 <= blank_len(s) <= s.len(),
        forall|j: int| 0 <= j < blank_len(s) ==> s[j] == ' ' || s[j] == '\t',
        blank_len(s) < s.len() ==> !(s[blank_len(s)] == ' ' || s[blank_len(s)] == '\t'),
    decreases s.len(),
{
    if s.len() == 0 {
    } else if s[0] == ' ' || s[0] == '\t' {
        lemma_blank_len(s.drop_first());
        assert(forall|j: int| 0 <= j < s.drop_first().len() ==> s.drop_first()[j] == s[j + 1]);
        assert forall|j: int| 0 <= j < blank_len(s) implies s[j] == ' ' || s[j] == '\t' by {
            if j > 0 {
                assert(s.drop_first()[j - 1] == s[j]);
            }
        }
    } else {
    }
}

/// Parses one package-info line into its key and value, if it has the
/// `Key : value` shape.
pub fn parse_pacman_line(line: &Vec<char>) -> (r: Option<(String, String)>)
    ensures
        r is Some <==> pacman_kv(line@) is Some,
        r matches Some(kv) ==> (pacman_kv(line@) matches Some(m) && kv.0@ == m.0 && kv.1@ == m.1),
{
    proof {
        lemma_kv_key(line@);
    }
    let n = line.len();
    let mut i: usize = 0;
    while i < n && !(line[i] == ':' || line[i] == ' ' || line[i] == '\t')
        invariant
            i <= n,
            n == line@.len(),
            forall|j: int| 0 <= j < i ==> !kv_stop(line@[j]),
        decreases n - i,
    {
        i = i + 1;
    }
    proof {
        lemma_kv_key(line@);
        assert(i == kv_key(line@).len()) by {
            if i < kv_key(line@).len() {
                assert(!kv_stop(line@[i as int]));
            }
            if i > kv_key(line@).len() {
                assert(kv_stop(line@[kv_key(line@).len() as int]));
            }
        }
    }
    let ghost rest = line@.skip(i as int);
    proof {
        lemma_blank_len(rest);
        assert(forall|j: int| 0 <= j < rest.len() ==> rest[j] == line@[i + j]);
    }
    let mut w: usize = i;
    while w < n && (line[w] == ' ' || line[w] == '\t')
        invariant
            i <= w <= n,
            n == line@.len(),
            rest == line@.skip(i as int),
            forall|j: int| 0 <= j < rest.len() ==> rest[j] == line@[i + j],
            forall|j: int| 0 <= j < w - i ==> rest[j] == ' ' || rest[j] == '\t',
        decreases n - w,
    {
        w = w + 1;
    }
    proof {
        lemma_blank_len(rest);
        assert(w - i == blank_len(rest)) by {
            if w - i < blank_len(rest) {
                assert(rest[w - i] == ' ' || rest[w - i] == '\t');
            }
            if w - i > blank_len(rest) {
                assert(!(rest[blank_len(rest)] == ' ' || rest[blank_len(rest)] == '\t'));
            }
        }
    }
    let ghost rest2 = rest.skip(blank_len(rest));
    proof {
        assert(forall|j: int| 0 <= j < rest2.len() ==> rest2[j] == line@[w + j]);
    }
    if i == 0 || w == i || n - w < 3 {
        assert(pacman_kv(line@) is None);
        return None;
    }
    if line[w] == ':' && line[w + 1] == ' ' {
        let key = sub_chars(line, 0, i);
        let value = sub_chars(line, w + 2, n);
        proof {
            assert(key@ =~= kv_key(line@)) by {
                lemma_kv_key(line@);
            }
            assert(value@ =~= rest2.skip(2));
        }
        Some((from_chars(&key), from_chars(&value)))
    } else {
        assert(pacman_kv(line@) is None);
        None
    }
}

/// The URL fields of a package-info listing: blank and indented
/// continuation lines are skipped, every other line is read as `Key :
/// value`, and the values of the `URL` keys are kept in order.
pub open spec fn pacman_url_values(lines: Seq<Seq<char>>) -> Seq<Seq<char>>
    decreases lines.len(),
{
    if lines.len() == 0 {
        Seq::empty()
    } else {
        let line = lines[0];
        let rest = pacman_url_values(lines.drop_first());
        if line.len() == 0 || line[0] == ' ' || line[0] == '\t' {
            rest
        } else {
            match pacman_kv(line) {
                Some(kv) => if kv.0 == "URL"@ {
                    seq![kv.1] + rest
                } else {
                    rest
                },
                None => rest,
            }
        }
    }
}

/// Reads a whole package-info listing and hands back the `URL` field of
/// every package block, in order.
pub fn pacman_urls(text: &String) -> (r: Vec<String>)
    ensures
        r.deep_view() == pacman_url_values(text_lines(text@)),
{
    let lines = lines_of(text.as_str());
    let ghost lv = lines.deep_view();
    let n = lines.len();
    let mut out: Vec<String> = Vec::new();
    let mut i: usize = 0;
    proof {
        assert(lv.subrange(0, n as int) =~~= lv);
        assert(out.deep_view() + pacman_url_values(lv) =~~= pacman_url_values(lv));
    }
    while i < n
        invariant
            i <= n,
            n == lines@.len(),
            lv == lines.deep_view(),
            lv == text_lines(text@),
            lv.len() == n,
            pacman_url_values(lv) == out.deep_view() + pacman_url_values(
                lv.subrange(i as int, n as int),
            ),
        decreases n - i,
    {
        let ghost rest = lv.subrange(i as int, n as int);
        assert(rest[0] == lv[i as int]);
        assert(rest.drop_first() =~~= lv.subrange(i + 1, n as int));
        let line = &lines[i];
        assert(line@ == lv[i as int]);
        let ghost out0 = out.deep_view();
        let skip = line.len() == 0 || line[0] == ' ' || line[0] == '\t';
        if !skip {
            match parse_pacman_line(line) {
                Some(kv) => {
                    let keyc = to_chars(kv.0.as_str());
                    if chars_eq_str(&keyc, "URL") {
                        let ghost vv = kv.1@;
                        out.push(kv.1);
                        proof {
                            assert(pacman_url_values(rest) == seq![vv] + pacman_url_values(
                                rest.drop_first(),
                            ));
                            assert(out.deep_view() =~~= out0.push(vv));
                            assert(out0.push(vv) + pacman_url_values(rest.drop_first()) =~~= out0
                                + (seq![vv] + pacman_url_values(rest.drop_first())));
                        }
                    } else {
                        proof {
                            assert(pacman_url_values(rest) == pacman_url_values(
                                rest.drop_first(),
                            ));
                        }
                    }
                },
                None => {
                    proof {
                        assert(pacman_url_values(rest) == pacman_url_values(rest.drop_first()));
                    }
                },
            }
        } else {
            proof {
                assert(pacman_url_values(rest) == pacman_url_values(rest.drop_first()));
            }
        }
        i = i + 1;
    }
    proof {
        assert(lv.subrange(n as int, n as int) =~~= Seq::<Seq<char>>::empty());
        assert(pacman_url_values(Seq::<Seq<char>>::empty()) == Seq::<Seq<char>>::empty());
        assert(out.deep_view() + Seq::<Seq<char>>::empty() =~~= out.deep_view());
    }
    out
}

/// The candidate links of a project page, kept in order: exactly those that
/// start with `https://`.
pub open spec fn https_links(hrefs: Seq<Seq<char>>) -> Seq<Seq<char>>
    decreases hrefs.len(),
{
    if hrefs.len() == 0 {
        Seq::empty()
    } else {
        let rest = https_links(hrefs.drop_first());
        if starts_with(hrefs[0], "https://"@) {
            seq![hrefs[0]] + rest
        } else {
            rest
        }
    }
}

/// Keeps the links that start with `https://`, in order.
pub fn filter_https_links(hrefs: &Vec<String>) -> (r: Vec<String>)
    ensures
        r.deep_view() == https_links(hrefs.deep_view()),
{
    let ghost hv = hrefs.deep_view();
    let n = hrefs.len();
    let pre = to_chars("https://");
    let mut out: Vec<String> = Vec::new();
    let mut i: usize = 0;
    proof {
        assert(hv.subrange(0, n as int) =~~= hv);
        assert(out.deep_view() + https_links(hv) =~~= https_links(hv));
    }
    while i < n
        invariant
            i <= n,
            n == hrefs@.len(),
            hv == hrefs.deep_view(),
            hv.len() == n,
            pre@ == "https://"@,
            https_links(hv) == out.deep_view() + https_links(hv.subrange(i as int, n as int)),
        decreases n - i,
    {
        let ghost rest = hv.subrange(i as int, n as int);
        assert(rest[0] == hv[i as int]);
        assert(rest.drop_first() =~~= hv.subrange(i + 1, n as int));
        let ghost out0 = out.deep_view();
        let hc = to_chars(hrefs[i].as_str());
        assert(hc@ == hv[i as int]);
        if chars_start_with(&hc, &pre) {
            let kept = hrefs[i].clone();
            out.push(kept);
            proof {
                assert(https_links(rest) == seq![rest[0]] + https_links(rest.drop_first()));
                assert(out.deep_view() =~~= out0.push(rest[0]));
                assert(out0.push(rest[0]) + https_links(rest.drop_first()) =~~= out0 + (seq![
                    rest[0],
                ] + https_links(rest.drop_first())));
            }
        } else {
            proof {
                assert(https_links(rest) == https_links(rest.drop_first()));
            }
        }
        i = i + 1;
    }
    proof {
        assert(hv.subrange(n as int, n as int) =~~= Seq::<Seq<char>>::empty());
        assert(out.deep_view() + Seq::<Seq<char>>::empty() =~~= out.deep_view());
    }
    out
}

} // verus!
