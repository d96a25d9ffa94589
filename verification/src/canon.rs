//! URL canonicalization: forge recognition, GitHub-Pages rewriting, path
//! truncation to the organization/repository pair, same-page canonical-link
//! discovery, and the syntactic fallback normalization.

use vstd::prelude::*;

use crate::strutil::{
    chars_end_with, chars_eq_str, dec_digits, ends_with, extend_chars, free_of, from_chars,
    keep_nonempty, lemma_keep_nonempty_elems, lemma_keep_nonempty_free, lemma_split_acc_free,
    lemma_split_prefix_free, nonempty_segments, split_acc, split_char, split_chars, sub_chars,
    to_chars, u32_dec_chars,
};
use crate::urlparse::{parse_url, url_split, UrlParts};
use crate::weights::WorkingWeights;

verus! {

/// The separator between a scheme and a host.
pub open spec fn scheme_sep() -> Seq<char> {
    seq![':', '/', '/']
}

/// The characters an explicit port contributes to a reassembled URL.
pub open spec fn port_chars(port: Option<u16>) -> Seq<char> {
    match port {
        None => Seq::empty(),
        Some(p) => seq![':'] + dec_digits(p as nat),
    }
}

/// A URL reassembled from its components, with no query or fragment.
pub open spec fn assembled(
    scheme: Seq<char>,
    host: Seq<char>,
    port: Option<u16>,
    path: Seq<char>,
) -> Seq<char> {
    scheme + scheme_sep() + host + port_chars(port) + path
}

/// Whether the host is one of the recognized forges: the three known hosts,
/// or any host with a label equal to `gitlab` (self-hosted GitLab).
pub open spec fn is_forge_host(host: Seq<char>) -> bool {
    host == "github.com"@ || host == "gitlab.com"@ || host == "sr.ht"@ || split_char(
        host,
        '.',
    ).contains("gitlab"@)
}

/// Whether the host is a GitHub Pages host.
pub open spec fn is_pages_host(host: Seq<char>) -> bool {
    ends_with(host, ".github.io"@)
}

/// Whether the host denotes a project-identity-bearing forge URL.
pub open spec fn recognized_forge(host: Seq<char>) -> bool {
    is_pages_host(host) || is_forge_host(host)
}

/// The path truncated to its first two non-empty segments.
pub open spec fn forge_trunc_path(path: Seq<char>) -> Seq<char> {
    let segs = keep_nonempty(split_char(path, '/'));
    if segs.len() == 0 {
        Seq::empty()
    } else if segs.len() == 1 {
        seq!['/'] + segs[0]
    } else {
        seq!['/'] + segs[0] + seq!['/'] + segs[1]
    }
}

/// The path a GitHub Pages URL denotes on github.com: the host's first label
/// followed by the path the URL carried.
pub open spec fn pages_path(host: Seq<char>, path: Seq<char>) -> Seq<char> {
    seq!['/'] + split_char(host, '.')[0] + path
}

/// The canonical form of a URL whose host is a recognized forge: a Pages
/// host is rewritten onto github.com first, then the path is truncated to
/// the organization/repository pair; the port is dropped.
pub open spec fn forge_canonical_of(scheme: Seq<char>, host: Seq<char>, path: Seq<char>) -> Seq<
    char,
> {
    if is_pages_host(host) {
        assembled("https"@, "github.com"@, None, forge_trunc_path(pages_path(host, path)))
    } else {
        assembled(scheme, host, None, forge_trunc_path(path))
    }
}

/// Whether the string parses as a URL whose host is a recognized forge.
pub open spec fn accepted_forge(u: Seq<char>) -> bool {
    match url_split(u) {
        Some(t) => recognized_forge(t.1),
        None => false,
    }
}

/// The canonical form of an accepted forge URL.
pub open spec fn accepted_canonical(u: Seq<char>) -> Seq<char> {
    match url_split(u) {
        Some(t) => forge_canonical_of(t.0, t.1, t.3),
        None => Seq::empty(),
    }
}

fn build_assembled(scheme: &Vec<char>, host: &Vec<char>, port: Option<u16>, path: &Vec<char>) -> (r:
    String)
    ensures
        r@ == assembled(scheme@, host@, port, path@),
{
    let mut out: Vec<char> = Vec::new();
    extend_chars(&mut out, scheme);
    out.push(':');
    out.push('/');
    out.push('/');
    extend_chars(&mut out, host);
    match port {
        Some(p) => {
            out.push(':');
            let d = u32_dec_chars(p as u32);
            extend_chars(&mut out, &d);
        },
        None => {},
    }
    extend_chars(&mut out, path);
    assert(out@ =~= assembled(scheme@, host@, port, path@));
    from_chars(&out)
}

fn host_is_forge(host: &Vec<char>) -> (r: bool)
    ensures
        r == is_forge_host(host@),
{
    if chars_eq_str(host, "github.com") {
        return true;
    }
    if chars_eq_str(host, "gitlab.com") {
        return true;
    }
    if chars_eq_str(host, "sr.ht") {
        return true;
    }
    let labels = split_chars(host, '.');
    let n = labels.len();
    let mut i: usize = 0;
    while i < n
        invariant
            i <= n,
            n == labels@.len(),
            labels.deep_view() == split_char(host@, '.'),
            forall|j: int| 0 <= j < i ==> labels.deep_view()[j] != "gitlab"@,
        decreases n - i,
    {
        if chars_eq_str(&labels[i], "gitlab") {
            assert(labels.deep_view()[i as int] == "gitlab"@);
            return true;
        }
        assert(labels.deep_view()[i as int] == labels@[i as int]@);
        i = i + 1;
    }
    assert(!split_char(host@, '.').contains("gitlab"@));
    false
}

fn trunc_path(path: &Vec<char>) -> (r: Vec<char>)
    ensures
        r@ == forge_trunc_path(path@),
{
    let segs = split_chars(path, '/');
    let ne = nonempty_segments(&segs);
    let ghost model = keep_nonempty(split_char(path@, '/'));
    assert(ne.deep_view() == model);
    let mut out: Vec<char> = Vec::new();
    if ne.len() >= 1 {
        out.push('/');
        extend_chars(&mut out, &ne[0]);
        assert(ne@[0]@ == model[0]);
    }
    if ne.len() >= 2 {
        out.push('/');
        extend_chars(&mut out, &ne[1]);
        assert(ne@[1]@ == model[1]);
    }
    assert(out@ =~= forge_trunc_path(path@));
    out
}

/// The canonical form of a URL already split into parts, when its host is a
/// recognized forge; `None` otherwise.
pub fn forge_canonicalize(parts: &UrlParts) -> (r: Option<String>)
    ensures
        r is Some <==> recognized_forge(parts.host@),
        r matches Some(c) ==> c@ == forge_canonical_of(parts.scheme@, parts.host@, parts.path@),
{
    let host = to_chars(parts.host.as_str());
    let path = to_chars(parts.path.as_str());
    let pages_suf = to_chars(".github.io");
    if chars_end_with(&host, &pages_suf) {
        let labels = split_chars(&host, '.');
        let mut rewritten: Vec<char> = Vec::new();
        rewritten.push('/');
        extend_chars(&mut rewritten, &labels[0]);
        extend_chars(&mut rewritten, &path);
        assert(labels@[0]@ == split_char(host@, '.')[0]);
        assert(rewritten@ =~= pages_path(host@, path@));
        let t = trunc_path(&rewritten);
        let https = to_chars("https");
        let gh = to_chars("github.com");
        Some(build_assembled(&https, &gh, None, &t))
    } else if host_is_forge(&host) {
        let t = trunc_path(&path);
        let scheme = to_chars(parts.scheme.as_str());
        Some(build_assembled(&scheme, &host, None, &t))
    } else {
        None
    }
}

/// The purely syntactic normalization: the URL reassembled from scheme,
/// host, port and path, with query and fragment gone.
pub fn syntactic_fallback(parts: &UrlParts) -> (r: String)
    ensures
        r@ == assembled(parts.scheme@, parts.host@, parts.port, parts.path@),
{
    let scheme = to_chars(parts.scheme.as_str());
    let host = to_chars(parts.host.as_str());
    let path = to_chars(parts.path.as_str());
    build_assembled(&scheme, &host, parts.port, &path)
}

/// Records the candidate URL when it bears a forge identity: truncates and
/// inserts its canonical form, and reports whether it was recognized, so
/// that a caller can stop its candidate search.  A candidate that does not
/// parse, or whose host is no forge, records nothing.
pub fn maybe_add_url(w: &mut WorkingWeights, url: &String) -> (r: bool)
    requires
        old(w).wf(),
    ensures
        final(w).wf(),
        final(w).accounts == old(w).accounts,
        r == accepted_forge(url@),
        accepted_forge(url@) ==> final(w).projects@ == old(w).projects@.insert(
            accepted_canonical(url@),
            None,
        ),
        !accepted_forge(url@) ==> final(w).projects == old(w).projects,
{
    match parse_url(url.as_str()) {
        None => false,
        Some(parts) => {
            match forge_canonicalize(&parts) {
                Some(c) => {
                    w.record_project(c);
                    true
                },
                None => false,
            }
        },
    }
}

/// Tries the candidates in source order and records the first one accepted
/// as a forge URL, leaving the rest untried; reports its index, or `None`
/// when no candidate is accepted, in which case nothing is recorded.
pub fn first_forge_match(w: &mut WorkingWeights, candidates: &Vec<String>) -> (r: Option<usize>)
    requires
        old(w).wf(),
    ensures
        final(w).wf(),
        final(w).accounts == old(w).accounts,
        match r {
            Some(i) => i < candidates@.len() && accepted_forge(candidates@[i as int]@) && (forall|
                j: int,
            |
                0 <= j < i ==> !accepted_forge(candidates@[j]@)) && final(w).projects@ == old(
                w,
            ).projects@.insert(accepted_canonical(candidates@[i as int]@), None),
            None => (forall|j: int| 0 <= j < candidates@.len() ==> !accepted_forge(
                candidates@[j]@,
            )) && final(w).projects == old(w).projects,
        },
{
    let n = candidates.len();
    let mut i: usize = 0;
    while i < n
        invariant
            w.wf(),
            i <= n,
            n == candidates@.len(),
            w.projects == old(w).projects,
            w.accounts == old(w).accounts,
            forall|j: int| 0 <= j < i ==> !accepted_forge(candidates@[j]@),
        decreases n - i,
    {
        if maybe_add_url(w, &candidates[i]) {
            return Some(i);
        }
        i = i + 1;
    }
    None
}

proof fn lemma_trunc_single(a: Seq<char>)
    requires
        a.len() > 0,
        free_of(a, '/'),
    ensures
        keep_nonempty(split_char(seq!['/'] + a, '/')) == seq![a],
{
    let s1 = seq!['/'] + a;
    assert(s1[0] == '/');
    assert(s1.drop_first() =~= a);
    assert(split_char(s1, '/') == seq![Seq::<char>::empty()] + split_acc(a, '/', Seq::empty()));
    assert(a + Seq::<char>::empty() =~= a);
    lemma_split_prefix_free(a, Seq::empty(), '/', Seq::empty());
    assert(split_acc(a, '/', Seq::empty()) == split_acc(
        Seq::empty(),
        '/',
        Seq::<char>::empty() + a,
    ));
    assert(Seq::<char>::empty() + a =~= a);
    assert(split_acc(Seq::<char>::empty(), '/', a) == seq![a]);
    let segs = seq![Seq::<char>::empty()] + seq![a];
    assert(split_char(s1, '/') == segs);
    assert(segs[0].len() == 0);
    assert(segs.drop_first() =~= seq![a]);
    assert(seq![a].drop_first() =~= Seq::<Seq<char>>::empty());
    assert(keep_nonempty(Seq::<Seq<char>>::empty()) == Seq::<Seq<char>>::empty());
    assert(seq![a][0] == a);
    assert(keep_nonempty(seq![a]) == seq![a] + Seq::<Seq<char>>::empty());
    assert(keep_nonempty(seq![a]) =~~= seq![a]);
    assert(keep_nonempty(segs) == keep_nonempty(seq![a]));
    assert(keep_nonempty(segs) =~~= seq![a]);
}

proof fn lemma_trunc_double(a: Seq<char>, b: Seq<char>)
    requires
        a.len() > 0,
        b.len() > 0,
        free_of(a, '/'),
        free_of(b, '/'),
    ensures
        keep_nonempty(split_char(seq!['/'] + a + seq!['/'] + b, '/')) == seq![a, b],
{
    let s2 = seq!['/'] + a + seq!['/'] + b;
    let t = seq!['/'] + b;
    assert(s2[0] == '/');
    assert(s2.drop_first() =~= a + t);
    assert(split_char(s2, '/') == seq![Seq::<char>::empty()] + split_acc(a + t, '/', Seq::empty()));
    lemma_split_prefix_free(a, t, '/', Seq::empty());
    assert(Seq::<char>::empty() + a =~= a);
    assert(split_acc(a + t, '/', Seq::empty()) == split_acc(t, '/', a));
    assert(t[0] == '/');
    assert(t.drop_first() =~= b);
    assert(split_acc(t, '/', a) == seq![a] + split_acc(b, '/', Seq::empty()));
    lemma_split_prefix_free(b, Seq::empty(), '/', Seq::empty());
    assert(b + Seq::<char>::empty() =~= b);
    assert(Seq::<char>::empty() + b =~= b);
    assert(split_acc(b, '/', Seq::empty()) == split_acc(Seq::empty(), '/', b));
    assert(split_acc(Seq::<char>::empty(), '/', b) == seq![b]);
    let segs = seq![Seq::<char>::empty()] + (seq![a] + seq![b]);
    assert(split_char(s2, '/') == segs);
    assert(segs[0].len() == 0);
    assert(segs.drop_first() =~= seq![a, b]);
    assert(seq![a, b][0] == a);
    assert(seq![a, b].drop_first() =~= seq![b]);
    assert(seq![b].drop_first() =~= Seq::<Seq<char>>::empty());
    assert(keep_nonempty(Seq::<Seq<char>>::empty()) == Seq::<Seq<char>>::empty());
    assert(seq![b][0] == b);
    assert(keep_nonempty(seq![b]) == seq![b] + Seq::<Seq<char>>::empty());
    assert(keep_nonempty(seq![b]) =~~= seq![b]);
    assert(keep_nonempty(seq![a, b]) == seq![a] + keep_nonempty(seq![b]));
    assert(keep_nonempty(seq![a, b]) =~~= seq![a, b]);
    assert(keep_nonempty(segs) == keep_nonempty(seq![a, b]));
    assert(keep_nonempty(segs) =~~= seq![a, b]);
}

/// Truncating a path to its organization/repository pair is idempotent: the
/// truncated path truncates to itself.
pub proof fn lemma_forge_trunc_idempotent(path: Seq<char>)
    ensures
        forge_trunc_path(forge_trunc_path(path)) == forge_trunc_path(path),
{
    let segs = split_char(path, '/');
    let ne = keep_nonempty(segs);
    assert(free_of(Seq::empty(), '/'));
    lemma_split_acc_free(path, '/', Seq::empty());
    lemma_keep_nonempty_free(segs, '/');
    lemma_keep_nonempty_elems(segs);
    if ne.len() == 0 {
        assert(forge_trunc_path(path) == Seq::<char>::empty());
        assert(split_char(Seq::<char>::empty(), '/') == seq![Seq::<char>::empty()]);
        assert(seq![Seq::<char>::empty()].drop_first() =~= Seq::<Seq<char>>::empty());
        assert(keep_nonempty(Seq::<Seq<char>>::empty()) == Seq::<Seq<char>>::empty());
        assert(seq![Seq::<char>::empty()][0].len() == 0);
        assert(keep_nonempty(seq![Seq::<char>::empty()]) == Seq::<Seq<char>>::empty());
    } else if ne.len() == 1 {
        assert(ne[0].len() > 0 && free_of(ne[0], '/'));
        lemma_trunc_single(ne[0]);
        assert(forge_trunc_path(path) == seq!['/'] + ne[0]);
    } else {
        assert(ne[0].len() > 0 && free_of(ne[0], '/'));
        assert(ne[1].len() > 0 && free_of(ne[1], '/'));
        lemma_trunc_double(ne[0], ne[1]);
        assert(forge_trunc_path(path) == seq!['/'] + ne[0] + seq!['/'] + ne[1]);
    }
}

/// Idempotence of forge canonicalization: re-applying the forge rules to
/// the parts of an already-canonical URL — its host, which the first pass
/// fixed (github.com for a Pages host), and its truncated path — yields the
/// same canonical URL, character for character.
pub proof fn lemma_forge_canonical_idempotent(scheme: Seq<char>, host: Seq<char>, path: Seq<char>)
    requires
        recognized_forge(host),
    ensures
        ({
            let s2 = if is_pages_host(host) {
                "https"@
            } else {
                scheme
            };
            let h2 = if is_pages_host(host) {
                "github.com"@
            } else {
                host
            };
            let p2 = forge_trunc_path(
                if is_pages_host(host) {
                    pages_path(host, path)
                } else {
                    path
                },
            );
            recognized_forge(h2) && forge_canonical_of(s2, h2, p2) == forge_canonical_of(
                scheme,
                host,
                path,
            )
        }),
{
    reveal_strlit("github.com");
    reveal_strlit(".github.io");
    assert(!is_pages_host("github.com"@)) by {
        assert("github.com"@.len() == 10);
        assert(".github.io"@.len() == 10);
        assert("github.com"@[0] == 'g');
        assert(".github.io"@[0] == '.');
        if ends_with("github.com"@, ".github.io"@) {
            assert("github.com"@.subrange(0, 10)[0] == 'g');
        }
    }
    assert(is_forge_host("github.com"@));
    if is_pages_host(host) {
        lemma_forge_trunc_idempotent(pages_path(host, path));
    } else {
        lemma_forge_trunc_idempotent(path);
    }
}

/// The `href` of the first `<link rel="canonical">` element of an HTML page,
/// a function of the page text alone.
pub uninterp spec fn canonical_href_of(page: Seq<char>) -> Option<Seq<char>>;

/// Relies on `scraper::Html::parse_document` and `scraper::Selector::parse`:
/// parsing a page and selecting the first `link[rel="canonical"]` element's
/// `href` attribute depends on the page text alone.
#[verifier::external_body]
fn extract_canonical_href(page: &str) -> (r: Option<String>)
    ensures
        r is Some <==> canonical_href_of(page@) is Some,
        r matches Some(h) ==> canonical_href_of(page@) == Some(h@),
{
    let doc = scraper::Html::parse_document(page);
    let sel = scraper::Selector::parse("link[rel=\"canonical\"]").unwrap();
    match doc.select(&sel).next() {
        Some(el) => el.value().attr("href").map(|u| u.to_string()),
        None => None,
    }
}

/// The view of an optional borrowed page.
pub open spec fn page_view(page: Option<&String>) -> Option<Seq<char>> {
    match page {
        Some(p) => Some(p@),
        None => None,
    }
}

/// The full canonicalization verdict once the discovery page (if one was
/// needed and reachable) is in hand: an unparseable URL is rejected; a forge
/// host is truncated directly; otherwise the page's canonical link is
/// followed for one hop — a forge href is truncated, any other parseable
/// href is normalized syntactically — and failing all that, the starting URL
/// is normalized syntactically.
pub open spec fn canonicalized_with_page(u: Seq<char>, page: Option<Seq<char>>) -> Option<
    Seq<char>,
> {
    match url_split(u) {
        None => None,
        Some(t) => Some(
            if recognized_forge(t.1) {
                forge_canonical_of(t.0, t.1, t.3)
            } else {
                let href = match page {
                    Some(pg) => canonical_href_of(pg),
                    None => None,
                };
                match href {
                    Some(hr) => match url_split(hr) {
                        Some(h) => if recognized_forge(h.1) {
                            forge_canonical_of(h.0, h.1, h.3)
                        } else {
                            assembled(h.0, h.1, h.2, h.3)
                        },
                        None => assembled(t.0, t.1, t.2, t.3),
                    },
                    None => assembled(t.0, t.1, t.2, t.3),
                }
            },
        ),
    }
}

/// Canonicalizes a URL given the fetched discovery page, or `None` when the
/// fetch was skipped or failed; rejects only URLs that do not parse.
pub fn canonicalize_with_page(url: &String, page: Option<&String>) -> (r: Option<String>)
    ensures
        r is Some <==> canonicalized_with_page(url@, page_view(page)) is Some,
        r matches Some(c) ==> canonicalized_with_page(url@, page_view(page)) == Some(c@),
{
    match parse_url(url.as_str()) {
        None => None,
        Some(parts) => {
            match forge_canonicalize(&parts) {
                Some(c) => Some(c),
                None => {
                    let href = match page {
                        Some(p) => extract_canonical_href(p.as_str()),
                        None => None,
                    };
                    match href {
                        Some(h) => {
                            match parse_url(h.as_str()) {
                                Some(hp) => {
                                    match forge_canonicalize(&hp) {
                                        Some(c) => Some(c),
                                        None => Some(syntactic_fallback(&hp)),
                                    }
                                },
                                None => Some(syntactic_fallback(&parts)),
                            }
                        },
                        None => Some(syntactic_fallback(&parts)),
                    }
                },
            }
        },
    }
}

/// The URL whose page must be fetched before `canonicalize_with_page` can
/// finish: the URL itself, exactly when it parses and is no forge; a forge
/// URL or an unparseable one needs no discovery hop.
pub fn discovery_target(url: &String) -> (r: Option<String>)
    ensures
        r is Some <==> (url_split(url@) is Some && !accepted_forge(url@)),
        r matches Some(f) ==> f@ == url@,
{
    match parse_url(url.as_str()) {
        None => None,
        Some(parts) => {
            let host = to_chars(parts.host.as_str());
            let pages_suf = to_chars(".github.io");
            if chars_end_with(&host, &pages_suf) {
                None
            } else if host_is_forge(&host) {
                None
            } else {
                Some(url.clone())
            }
        },
    }
}

/// Records the canonical form of a URL unconditionally, the discovery page
/// (if any) in hand: everything that parses is recorded, a forge URL by its
/// truncated form and anything else by its discovered or syntactic form;
/// only an unparseable URL records nothing.
pub fn add_url_canonicalize(w: &mut WorkingWeights, url: &String, page: Option<&String>)
    requires
        old(w).wf(),
    ensures
        final(w).wf(),
        final(w).accounts == old(w).accounts,
        match canonicalized_with_page(url@, page_view(page)) {
            Some(c) => final(w).projects@ == old(w).projects@.insert(c, None),
            None => final(w).projects == old(w).projects,
        },
{
    match canonicalize_with_page(url, page) {
        Some(c) => {
            w.record_project(c);
        },
        None => {},
    }
}

} // verus!
