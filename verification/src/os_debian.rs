//! The Debian package workflow: pulling the upstream source URL out of a
//! package's `debian/copyright`, and the installed version out of the
//! package manager's status output.

use vstd::prelude::*;

use crate::strutil::{
    chars_start_with, extend_chars, from_chars, lines_of, starts_with, sub_chars, text_lines,
    to_chars,
};

verus! {

/// The remainder of the first line carrying the prefix, if any.
pub open spec fn first_prefixed(lines: Seq<Seq<char>>, pre: Seq<char>) -> Option<Seq<char>>
    decreases lines.len(),
{
    if lines.len() == 0 {
        None
    } else if starts_with(lines[0], pre) {
        Some(lines[0].skip(pre.len() as int))
    } else {
        first_prefixed(lines.drop_first(), pre)
    }
}

/// The remainder of the last line carrying the prefix, if any.
pub open spec fn last_prefixed(lines: Seq<Seq<char>>, pre: Seq<char>) -> Option<Seq<char>>
    decreases lines.len(),
{
    if lines.len() == 0 {
        None
    } else if starts_with(lines.last(), pre) {
        Some(lines.last().skip(pre.len() as int))
    } else {
        last_prefixed(lines.drop_last(), pre)
    }
}

/// The upstream source URL a `debian/copyright` text declares: the remainder
/// of its first `Source: ` line.
pub fn debian_source_field(copyright: &String) -> (r: Option<String>)
    ensures
        r is Some <==> first_prefixed(text_lines(copyright@), "Source: "@) is Some,
        r matches Some(s) ==> first_prefixed(text_lines(copyright@), "Source: "@) == Some(s@),
{
    let lines = lines_of(copyright.as_str());
    let ghost lv = lines.deep_view();
    let pre = to_chars("Source: ");
    let n = lines.len();
    let mut i: usize = 0;
    proof {
        assert(lv.subrange(0, n as int) =~~= lv);
    }
    while i < n
        invariant
            i <= n,
            n == lines@.len(),
            lv == lines.deep_view(),
            lv == text_lines(copyright@),
            lv.len() == n,
            pre@ == "Source: "@,
            first_prefixed(lv, pre@) == first_prefixed(lv.subrange(i as int, n as int), pre@),
        decreases n - i,
    {
        let ghost rest = lv.subrange(i as int, n as int);
        assert(rest[0] == lv[i as int]);
        assert(rest.drop_first() =~~= lv.subrange(i + 1, n as int));
        let line = &lines[i];
        assert(line@ == lv[i as int]);
        if chars_start_with(line, &pre) {
            assert(first_prefixed(rest, pre@) == Some(rest[0].skip(pre@.len() as int)));
            let tail = sub_chars(line, pre.len(), line.len());
            assert(tail@ =~= lv[i as int].skip(pre@.len() as int));
            return Some(from_chars(&tail));
        }
        i = i + 1;
    }
    assert(lv.subrange(n as int, n as int) =~~= Seq::<Seq<char>>::empty());
    None
}

/// The installed version the package manager's status output declares: the
/// remainder of its last `Version: ` line.
pub fn debian_version_field(status: &String) -> (r: Option<String>)
    ensures
        r is Some <==> last_prefixed(text_lines(status@), "Version: "@) is Some,
        r matches Some(s) ==> last_prefixed(text_lines(status@), "Version: "@) == Some(s@),
{
    let lines = lines_of(status.as_str());
    let ghost lv = lines.deep_view();
    let pre = to_chars("Version: ");
    let n = lines.len();
    let mut w: usize = n;
    proof {
        assert(lv.subrange(0, n as int) =~~= lv);
    }
    while w > 0
        invariant
            w <= n,
            n == lines@.len(),
            lv == lines.deep_view(),
            lv == text_lines(status@),
            lv.len() == n,
            pre@ == "Version: "@,
            last_prefixed(lv, pre@) == last_prefixed(lv.subrange(0, w as int), pre@),
        decreases w,
    {
        let ghost head = lv.subrange(0, w as int);
        assert(head.last() == lv[w - 1]);
        assert(head.drop_last() =~~= lv.subrange(0, w - 1));
        let line = &lines[w - 1];
        assert(line@ == lv[w - 1]);
        if chars_start_with(line, &pre) {
            assert(last_prefixed(head, pre@) == Some(head.last().skip(pre@.len() as int)));
            let tail = sub_chars(line, pre.len(), line.len());
            assert(tail@ =~= lv[w - 1].skip(pre@.len() as int));
            return Some(from_chars(&tail));
        }
        w = w - 1;
    }
    assert(lv.subrange(0, 0) =~~= Seq::<Seq<char>>::empty());
    None
}

/// The `package=version` argument under which a package's source is fetched.
pub fn apt_source_arg(package: &String, ver: &String) -> (r: String)
    ensures
        r@ == package@ + seq!['='] + ver@,
{
    let mut out = to_chars(package.as_str());
    out.push('=');
    let verc = to_chars(ver.as_str());
    extend_chars(&mut out, &verc);
    assert(out@ =~= package@ + seq!['='] + ver@);
    from_chars(&out)
}

} // verus!
