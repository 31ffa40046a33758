//! Canonical paths: the single key form under which a resource path is stored.
//!
//! A canonical path starts with exactly one `/`, has no trailing `/`, and
//! holds only printable ASCII characters other than space (spaces become `-`).
use vstd::prelude::*;

use crate::text::{chars_of, string_of};

verus! {

/// A printable ASCII character other than space (`!` through `~`).
pub open spec fn is_graphic(c: char) -> bool {
    '!' <= c && c <= '~'
}

/// The character with a space turned into a hyphen.
pub open spec fn dash_space(c: char) -> char {
    if c == ' ' {
        '-'
    } else {
        c
    }
}

/// The graphic characters of `s`, in order.
pub open spec fn graphic_only(s: Seq<char>) -> Seq<char>
    decreases s.len(),
{
    if s.len() == 0 {
        Seq::empty()
    } else if is_graphic(s.last()) {
        graphic_only(s.drop_last()).push(s.last())
    } else {
        graphic_only(s.drop_last())
    }
}

/// `s` with its spaces turned into hyphens and then every non-graphic
/// character dropped.
pub open spec fn scrub(s: Seq<char>) -> Seq<char> {
    graphic_only(s.map_values(|c: char| dash_space(c)))
}

/// `s` without its leading slashes.
pub open spec fn trim_front(s: Seq<char>) -> Seq<char>
    decreases s.len(),
{
    if s.len() > 0 && s[0] == '/' {
        trim_front(s.drop_first())
    } else {
        s
    }
}

/// `s` without its trailing slashes.
pub open spec fn trim_back(s: Seq<char>) -> Seq<char>
    decreases s.len(),
{
    if s.len() > 0 && s.last() == '/' {
        trim_back(s.drop_last())
    } else {
        s
    }
}

/// The canonical form of a raw path: scrubbed, stripped of leading and
/// trailing slashes, and prefixed with one slash.
pub open spec fn canonical(raw: Seq<char>) -> Seq<char> {
    seq!['/'] + trim_back(trim_front(scrub(raw)))
}

/// Every character is graphic.
pub open spec fn all_graphic(s: Seq<char>) -> bool {
    forall|i: int| 0 <= i < s.len() ==> is_graphic(#[trigger] s[i])
}

/// `s` is in canonical form.
pub open spec fn is_canonical(s: Seq<char>) -> bool {
    &&& s.len() >= 1
    &&& s[0] == '/'
    &&& all_graphic(s)
    &&& (s.len() >= 2 ==> s[1] != '/' && s.last() != '/')
}

proof fn lemma_graphic_only_graphic(s: Seq<char>)
    ensures
        all_graphic(graphic_only(s)),
    decreases s.len(),
{
    if s.len() > 0 {
        lemma_graphic_only_graphic(s.drop_last());
    }
}

proof fn lemma_graphic_only_id(s: Seq<char>)
    requires
        all_graphic(s),
    ensures
        graphic_only(s) == s,
    decreases s.len(),
{
    if s.len() > 0 {
        assert(all_graphic(s.drop_last()));
        lemma_graphic_only_id(s.drop_last());
        assert(s.drop_last().push(s.last()) =~= s);
    }
}

proof fn lemma_trim_front(s: Seq<char>)
    ensures
        exists|k: int| 0 <= k <= s.len() && trim_front(s) == s.subrange(k, s.len() as int),
        trim_front(s).len() > 0 ==> trim_front(s)[0] != '/',
    decreases s.len(),
{
    if s.len() > 0 && s[0] == '/' {
        lemma_trim_front(s.drop_first());
        let k = choose|k: int|
            0 <= k <= s.drop_first().len() && trim_front(s.drop_first()) == s.drop_first().subrange(
                k,
                s.drop_first().len() as int,
            );
        assert(s.drop_first().subrange(k, s.drop_first().len() as int) =~= s.subrange(
            k + 1,
            s.len() as int,
        ));
    } else {
        assert(s.subrange(0, s.len() as int) =~= s);
    }
}

proof fn lemma_trim_back(s: Seq<char>)
    ensures
        exists|k: int| 0 <= k <= s.len() && trim_back(s) == s.subrange(0, k),
        trim_back(s).len() > 0 ==> trim_back(s).last() != '/',
    decreases s.len(),
{
    if s.len() > 0 && s.last() == '/' {
        lemma_trim_back(s.drop_last());
        let k = choose|k: int|
            0 <= k <= s.drop_last().len() && trim_back(s.drop_last()) == s.drop_last().subrange(
                0,
                k,
            );
        assert(s.drop_last().subrange(0, k) =~= s.subrange(0, k));
    } else {
        assert(s.subrange(0, s.len() as int) =~= s);
    }
}

/// The canonical form of any raw path is in canonical form.
pub proof fn lemma_canonical_is_canonical(raw: Seq<char>)
    ensures
        is_canonical(canonical(raw)),
{
    let sc = scrub(raw);
    lemma_graphic_only_graphic(raw.map_values(|c: char| dash_space(c)));
    lemma_trim_front(sc);
    let f = trim_front(sc);
    let kf = choose|k: int| 0 <= k <= sc.len() && f == sc.subrange(k, sc.len() as int);
    lemma_trim_back(f);
    let b = trim_back(f);
    let kb = choose|k: int| 0 <= k <= f.len() && b == f.subrange(0, k);
    assert(all_graphic(b));
    let c = canonical(raw);
    assert(c == seq!['/'] + b);
    assert(c.len() >= 2 ==> c[1] == b[0]);
    assert(c.len() >= 2 ==> c[1] == f[0]);
    assert(is_graphic('/'));
    assert forall|i: int| 0 <= i < c.len() implies is_graphic(#[trigger] c[i]) by {
        if i > 0 {
            assert(c[i] == b[i - 1]);
        }
    }
}

/// Canonicalization is idempotent: the canonical form of a canonical path is
/// that path itself.
pub proof fn lemma_canonical_idempotent(raw: Seq<char>)
    ensures
        canonical(canonical(raw)) == canonical(raw),
{
    lemma_canonical_is_canonical(raw);
    let c = canonical(raw);
    assert forall|i: int| 0 <= i < c.len() implies c[i] != ' ' by {
        assert(is_graphic(c[i]));
    }
    let d = c.map_values(|ch: char| dash_space(ch));
    assert(d =~= c);
    lemma_graphic_only_id(c);
    assert(scrub(c) == c);
    let body = c.drop_first();
    assert(trim_front(c) == trim_front(body));
    if body.len() > 0 {
        assert(body[0] == c[1]);
        assert(body.last() == c.last());
    }
    assert(trim_front(body) == body);
    assert(trim_back(body) == body);
    assert(seq!['/'] + body =~= c);
}

/// The canonical path that `raw` stands for: spaces become hyphens,
/// characters outside printable ASCII are dropped, the slashes at both ends
/// are stripped and one leading slash is put back. Never fails; the worst
/// case is `/`.
pub fn to_cannonical_path(raw_path: &String) -> (r: String)
    ensures
        r@ == canonical(raw_path@),
{
    let chars = chars_of(raw_path.as_str());
    let n = chars.len();
    let ghost dashed = chars@.map_values(|c: char| dash_space(c));
    let mut kept: Vec<char> = Vec::new();
    let mut i: usize = 0;
    while i < n
        invariant
            n == chars.len(),
            0 <= i <= n,
            dashed == chars@.map_values(|c: char| dash_space(c)),
            kept@ == graphic_only(dashed.subrange(0, i as int)),
        decreases n - i,
    {
        let c = if chars[i] == ' ' {
            '-'
        } else {
            chars[i]
        };
        assert(dashed.subrange(0, i + 1).drop_last() =~= dashed.subrange(0, i as int));
        if '!' <= c && c <= '~' {
            kept.push(c);
        }
        i = i + 1;
    }
    assert(dashed.subrange(0, n as int) =~= dashed);
    let m = kept.len();
    let mut lo: usize = 0;
    assert(kept@.subrange(0, m as int) =~= kept@);
    while lo < m && kept[lo] == '/'
        invariant
            0 <= lo <= m == kept.len(),
            trim_front(kept@) == trim_front(kept@.subrange(lo as int, m as int)),
        decreases m - lo,
    {
        assert(kept@.subrange(lo as int, m as int).drop_first() =~= kept@.subrange(
            lo + 1,
            m as int,
        ));
        lo = lo + 1;
    }
    proof {
        assert(trim_front(kept@.subrange(lo as int, m as int)) == kept@.subrange(lo as int, m as int));
    }
    let mut hi: usize = m;
    while hi > lo && kept[hi - 1] == '/'
        invariant
            0 <= lo <= hi <= m == kept.len(),
            trim_back(trim_front(kept@)) == trim_back(kept@.subrange(lo as int, hi as int)),
        decreases hi - lo,
    {
        assert(kept@.subrange(lo as int, hi as int).drop_last() =~= kept@.subrange(
            lo as int,
            hi - 1,
        ));
        hi = hi - 1;
    }
    let mut out: Vec<char> = Vec::new();
    out.push('/');
    let mut j: usize = lo;
    while j < hi
        invariant
            0 <= lo <= j <= hi <= m == kept.len(),
            out@ == seq!['/'] + kept@.subrange(lo as int, j as int),
        decreases hi - j,
    {
        out.push(kept[j]);
        assert(seq!['/'] + kept@.subrange(lo as int, j + 1) =~= (seq!['/'] + kept@.subrange(
            lo as int,
            j as int,
        )).push(kept@[j as int]));
        j = j + 1;
    }
    string_of(&out)
}

/// The parts joined with `/` between each two of them.
pub open spec fn join_slash(parts: Seq<Seq<char>>) -> Seq<char>
    decreases parts.len(),
{
    if parts.len() == 0 {
        Seq::empty()
    } else if parts.len() == 1 {
        parts[0]
    } else {
        join_slash(parts.drop_last()) + seq!['/'] + parts.last()
    }
}

/// The path made of the given segments: `/` followed by the segments joined
/// with `/`.
pub fn to_cannonical_path_from_crumbs(crumbs: &[&str]) -> (r: String)
    ensures
        r@ == seq!['/'] + join_slash(crumbs@.map_values(|c: &str| c@)),
{
    let ghost parts = crumbs@.map_values(|c: &str| c@);
    let mut out: Vec<char> = Vec::new();
    out.push('/');
    let mut i: usize = 0;
    while i < crumbs.len()
        invariant
            0 <= i <= crumbs@.len(),
            parts == crumbs@.map_values(|c: &str| c@),
            out@ == seq!['/'] + join_slash(parts.subrange(0, i as int)),
        decreases crumbs@.len() - i,
    {
        let ghost before = out@;
        if i > 0 {
            out.push('/');
        }
        let seg = chars_of(crumbs[i]);
        let mut k: usize = 0;
        while k < seg.len()
            invariant
                0 <= k <= seg@.len(),
                out@ == (if i > 0 { before + seq!['/'] } else { before }) + seg@.subrange(0, k as int),
            decreases seg@.len() - k,
        {
            out.push(seg[k]);
            assert(seg@.subrange(0, k + 1) =~= seg@.subrange(0, k as int).push(seg@[k as int]));
            k = k + 1;
        }
        proof {
            let next = parts.subrange(0, i + 1);
            assert(next.drop_last() =~= parts.subrange(0, i as int));
            assert(seg@.subrange(0, seg@.len() as int) =~= seg@);
            assert(next.last() == seg@);
            if i == 0 {
                assert(join_slash(next) == seg@);
                assert(out@ =~= seq!['/'] + join_slash(next));
            } else {
                assert(out@ =~= seq!['/'] + join_slash(next));
            }
        }
        i = i + 1;
    }
    assert(parts.subrange(0, crumbs@.len() as int) =~= parts);
    string_of(&out)
}

/// The graphic characters of `input` (printable ASCII other than space), in
/// order.
pub fn remove_non_printables(input: &str) -> (r: String)
    ensures
        r@ == graphic_only(input@),
{
    let chars = chars_of(input);
    let mut kept: Vec<char> = Vec::new();
    let mut i: usize = 0;
    while i < chars.len()
        invariant
            0 <= i <= chars@.len(),
            kept@ == graphic_only(chars@.subrange(0, i as int)),
        decreases chars@.len() - i,
    {
        assert(chars@.subrange(0, i + 1).drop_last() =~= chars@.subrange(0, i as int));
        let c = chars[i];
        if '!' <= c && c <= '~' {
            kept.push(c);
        }
        i = i + 1;
    }
    assert(chars@.subrange(0, chars@.len() as int) =~= chars@);
    string_of(&kept)
}

} // verus!
