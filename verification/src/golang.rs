//! The Go dependency workflow: scanning a `go.mod` text for the modules its
//! `require` directives name, single-line and block form alike, skipping
//! indirect dependencies, and recording each module under `https://<module>`.

use vstd::prelude::*;

use crate::strutil::{
    chars_eq_str, extend_chars, from_chars, keep_nonempty, lemma_keep_nonempty_elems, lines_of,
    nonempty_segments, replace_chars, replaced, split_char, split_chars, text_lines, to_chars,
};
use crate::weights::{recorded_urls, WorkingWeights};

verus! {

/// The whitespace-separated tokens of a line.
pub open spec fn tokens(line: Seq<char>) -> Seq<Seq<char>> {
    keep_nonempty(split_char(replaced(line, '\t', ' '), ' '))
}

/// The module a require clause names: the first token, followed by a
/// version token, optionally followed by a `//` comment token; an
/// `indirect` comment or any other shape names nothing.
pub open spec fn require_id(tk: Seq<Seq<char>>) -> Option<Seq<char>> {
    if tk.len() == 2 {
        Some(tk[0])
    } else if tk.len() == 4 && tk[2] == "//"@ {
        if tk[3] == "indirect"@ {
            None
        } else {
            Some(tk[0])
        }
    } else {
        None
    }
}

/// The modules the lines declare, scanned with the block state: outside a
/// block, a line whose second token opens a parenthesis enters one (a
/// require block when the keyword says so), and a single-line `require`
/// contributes its module; inside a block, a lone `)` leaves it, and every
/// well-formed line of a require block contributes its module.
pub open spec fn gomod_scan(lines: Seq<Seq<char>>, parens: int, in_req: bool) -> Seq<Seq<char>>
    decreases lines.len(),
{
    if lines.len() == 0 {
        Seq::empty()
    } else {
        let line = lines[0];
        let rest = lines.drop_first();
        if parens == 0 {
            let tk = tokens(line);
            if tk.len() >= 2 {
                if tk[1][0] == '(' {
                    gomod_scan(rest, parens + 1, in_req || tk[0] == "require"@)
                } else if tk[0] == "require"@ {
                    match require_id(tk.drop_first()) {
                        Some(id) => seq![id] + gomod_scan(rest, parens, in_req),
                        None => gomod_scan(rest, parens, in_req),
                    }
                } else {
                    gomod_scan(rest, parens, in_req)
                }
            } else {
                gomod_scan(rest, parens, in_req)
            }
        } else {
            if line == ")"@ {
                gomod_scan(rest, parens - 1, false)
            } else if in_req {
                match require_id(tokens(line)) {
                    Some(id) => seq![id] + gomod_scan(rest, parens, in_req),
                    None => gomod_scan(rest, parens, in_req),
                }
            } else {
                gomod_scan(rest, parens, in_req)
            }
        }
    }
}

/// The project URLs a `go.mod` text contributes.
pub open spec fn gomod_urls(text: Seq<char>) -> Seq<Seq<char>> {
    gomod_scan(text_lines(text), 0, false).map_values(|id: Seq<char>| "https://"@ + id)
}

fn line_tokens(line: &Vec<char>) -> (r: Vec<Vec<char>>)
    ensures
        r.deep_view() == tokens(line@),
        forall|j: int| 0 <= j < r@.len() ==> #[trigger] r@[j]@.len() > 0,
{
    let norm = replace_chars(line, '\t', ' ');
    let segs = split_chars(&norm, ' ');
    let tk = nonempty_segments(&segs);
    proof {
        lemma_keep_nonempty_elems(segs.deep_view());
        assert forall|j: int| 0 <= j < tk@.len() implies #[trigger] tk@[j]@.len() > 0 by {
            assert(tk.deep_view()[j] == tk@[j]@);
            assert(keep_nonempty(segs.deep_view())[j].len() > 0);
        }
    }
    tk
}

fn record_module(w: &mut WorkingWeights, id: &Vec<char>)
    requires
        old(w).wf(),
    ensures
        final(w).wf(),
        final(w).accounts == old(w).accounts,
        final(w).projects@ == old(w).projects@.insert("https://"@ + id@, None),
{
    let mut url = to_chars("https://");
    extend_chars(&mut url, id);
    let s = from_chars(&url);
    w.record_project(s);
}

/// Records every module a `go.mod` text requires, in order, each under its
/// `https://` address.
pub fn process_golang_gomod(w: &mut WorkingWeights, text: &String)
    requires
        old(w).wf(),
    ensures
        final(w).wf(),
        final(w).accounts == old(w).accounts,
        final(w).projects@ == recorded_urls(old(w).projects@, gomod_urls(text@)),
{
    let lines = lines_of(text.as_str());
    let ghost lv = lines.deep_view();
    let ghost full = gomod_scan(lv, 0, false);
    let ghost m0 = old(w).projects@;
    let n = lines.len();
    let mut parens: u32 = 0;
    let mut in_req: bool = false;
    let mut i: usize = 0;
    let ghost url_of = |id: Seq<char>| "https://"@ + id;
    let ghost mut emitted: Seq<Seq<char>> = Seq::empty();
    proof {
        assert(lv.subrange(0, n as int) =~~= lv);
        assert(emitted + gomod_scan(lv, 0, false) =~~= gomod_scan(lv, 0, false));
        assert(emitted.map_values(url_of) =~~= Seq::<Seq<char>>::empty());
    }
    while i < n
        invariant
            i <= n,
            n == lines@.len(),
            lv == lines.deep_view(),
            lv == text_lines(text@),
            lv.len() == n,
            parens <= 1,
            full == gomod_scan(lv, 0, false),
            m0 == old(w).projects@,
            url_of == (|id: Seq<char>| "https://"@ + id),
            full == emitted + gomod_scan(lv.subrange(i as int, n as int), parens as int, in_req),
            w.wf(),
            w.accounts == old(w).accounts,
            w.projects@ == recorded_urls(m0, emitted.map_values(url_of)),
        decreases n - i,
    {
        let ghost rest = lv.subrange(i as int, n as int);
        let ghost scan_now = gomod_scan(rest, parens as int, in_req);
        assert(rest[0] == lv[i as int]);
        assert(rest.drop_first() =~~= lv.subrange(i + 1, n as int));
        let line = &lines[i];
        assert(line@ == lv[i as int]);
        let mut emit: Option<&Vec<char>> = None;
        let tk = line_tokens(line);
        let ghost tkv = tokens(lv[i as int]);
        assert(tk.deep_view() == tkv);
        assert(forall|j: int| 0 <= j < tk@.len() ==> tk@[j]@ == tkv[j]);
        if parens == 0 {
            if tk.len() >= 2 {
                if tk[1][0] == '(' {
                    assert(tkv[1][0] == '(');
                    if chars_eq_str(&tk[0], "require") {
                        in_req = true;
                    }
                    parens = 1;
                    assert(scan_now == gomod_scan(rest.drop_first(), 1, in_req));
                } else if chars_eq_str(&tk[0], "require") {
                    assert(tkv[1][0] != '(');
                    if tk.len() == 3 {
                        assert(tkv.drop_first() =~= seq![tkv[1], tkv[2]]);
                        assert(require_id(tkv.drop_first()) == Some(tkv[1]));
                        emit = Some(&tk[1]);
                    } else if tk.len() == 5 && chars_eq_str(&tk[3], "//") && !chars_eq_str(
                        &tk[4],
                        "indirect",
                    ) {
                        assert(tkv.drop_first() =~= seq![tkv[1], tkv[2], tkv[3], tkv[4]]);
                        assert(require_id(tkv.drop_first()) == Some(tkv[1]));
                        emit = Some(&tk[1]);
                    } else {
                        assert(tkv.drop_first().len() == tkv.len() - 1);
                        assert forall|j: int|
                            0 <= j < tkv.drop_first().len() implies #[trigger] tkv.drop_first()[j]
                            == tkv[j + 1] by {}
                        assert(require_id(tkv.drop_first()) is None);
                    }
                }
            }
        } else {
            if chars_eq_str(line, ")") {
                parens = 0;
                in_req = false;
            } else if in_req {
                if tk.len() == 2 {
                    assert(require_id(tkv) == Some(tkv[0]));
                    emit = Some(&tk[0]);
                } else if tk.len() == 4 && chars_eq_str(&tk[2], "//") && !chars_eq_str(
                    &tk[3],
                    "indirect",
                ) {
                    assert(require_id(tkv) == Some(tkv[0]));
                    emit = Some(&tk[0]);
                } else {
                    assert(require_id(tkv) is None);
                }
            }
        }
        match emit {
            Some(idc) => {
                let ghost idv = idc@;
                record_module(w, idc);
                proof {
                    let u = url_of(idv);
                    let mapped_old = emitted.map_values(url_of);
                    let before = emitted;
                    emitted = emitted.push(idv);
                    let mapped_new = emitted.map_values(url_of);
                    assert(mapped_new =~~= mapped_old.push(u));
                    assert(mapped_new.drop_last() =~= mapped_old);
                    assert(mapped_new.last() == u);
                    assert(recorded_urls(m0, mapped_new) == recorded_urls(m0, mapped_old).insert(
                        u,
                        None,
                    ));
                    assert(u == "https://"@ + idv);
                    assert(scan_now == seq![idv] + gomod_scan(
                        rest.drop_first(),
                        parens as int,
                        in_req,
                    ));
                    assert(before + (seq![idv] + gomod_scan(
                        rest.drop_first(),
                        parens as int,
                        in_req,
                    )) =~~= emitted + gomod_scan(rest.drop_first(), parens as int, in_req));
                }
            },
            None => {},
        }
        i = i + 1;
    }
    proof {
        assert(lv.subrange(n as int, n as int) =~~= Seq::<Seq<char>>::empty());
        assert(gomod_scan(Seq::empty(), parens as int, in_req) =~~= Seq::<Seq<char>>::empty());
        assert(emitted + Seq::<Seq<char>>::empty() =~~= emitted);
        assert(gomod_urls(text@) == full.map_values(url_of));
    }
}

} // verus!
