//! Character-level text handling: whitespace trimming, prefix / suffix /
//! substring tests and pattern replacement, each stated over the character
//! sequence that a string views as.

use vstd::prelude::*;
use vstd::string::*;

verus! {

/// The Unicode `White_Space` property: the characters that `str::trim`
/// removes from either end of a string.
pub open spec fn is_white_space(c: char) -> bool {
    let u = c as u32;
    ||| 0x09 <= u <= 0x0D
    ||| u == 0x20
    ||| u == 0x85
    ||| u == 0xA0
    ||| u == 0x1680
    ||| 0x2000 <= u <= 0x200A
    ||| u == 0x2028
    ||| u == 0x2029
    ||| u == 0x202F
    ||| u == 0x205F
    ||| u == 0x3000
}

/// `s` without its leading white space.
pub open spec fn trim_start(s: Seq<char>) -> Seq<char>
    decreases s.len(),
{
    if s.len() > 0 && is_white_space(s[0]) {
        trim_start(s.drop_first())
    } else {
        s
    }
}

/// `s` without its trailing white space.
pub open spec fn trim_end(s: Seq<char>) -> Seq<char>
    decreases s.len(),
{
    if s.len() > 0 && is_white_space(s.last()) {
        trim_end(s.drop_last())
    } else {
        s
    }
}

/// `s` without leading and trailing white space.
pub open spec fn trim(s: Seq<char>) -> Seq<char> {
    trim_end(trim_start(s))
}

/// `p` is a prefix of `s`.
pub open spec fn has_prefix(s: Seq<char>, p: Seq<char>) -> bool {
    p.len() <= s.len() && s.subrange(0, p.len() as int) == p
}

/// `p` is a suffix of `s`.
pub open spec fn has_suffix(s: Seq<char>, p: Seq<char>) -> bool {
    p.len() <= s.len() && s.subrange(s.len() - p.len(), s.len() as int) == p
}

/// `p` occurs in `s` starting at position `at`.
pub open spec fn occurs_at(s: Seq<char>, p: Seq<char>, at: int) -> bool {
    0 <= at && at + p.len() <= s.len() && s.subrange(at, at + p.len()) == p
}

/// `p` occurs somewhere in `s` (the empty pattern occurs in every string).
pub open spec fn has_infix(s: Seq<char>, p: Seq<char>) -> bool {
    exists|at: int| occurs_at(s, p, at)
}

/// `s` with every occurrence of `from` replaced by `to`, the occurrences being
/// taken from left to right without overlap (the semantics of `str::replace`
/// for a non-empty pattern).
pub open spec fn replace_all(s: Seq<char>, from: Seq<char>, to: Seq<char>) -> Seq<char>
    decreases s.len(),
{
    if s.len() == 0 {
        s
    } else if from.len() > 0 && has_prefix(s, from) {
        to + replace_all(s.skip(from.len() as int), from, to)
    } else {
        seq![s[0]] + replace_all(s.drop_first(), from, to)
    }
}

/// The characters of `s`, in order.
pub fn chars_of(s: &str) -> (out: Vec<char>)
    ensures
        out@ == s@,
{
    let mut out: Vec<char> = Vec::new();
    for c in it: s.chars()
        invariant
            out@ == it.seq().take(it.index() as int),
    {
        out.push(c);
    }
    out
}

/// Whether `c` has the Unicode `White_Space` property.
pub fn white_space(c: char) -> (b: bool)
    ensures
        b == is_white_space(c),
{
    let u = c as u32;
    (0x09 <= u && u <= 0x0D) || u == 0x20 || u == 0x85 || u == 0xA0 || u == 0x1680 || (0x2000
        <= u && u <= 0x200A) || u == 0x2028 || u == 0x2029 || u == 0x202F || u == 0x205F || u
        == 0x3000
}

/// Whether `p` occurs in `s` at position `at`.
pub fn occurs_at_exec(s: &Vec<char>, p: &Vec<char>, at: usize) -> (b: bool)
    ensures
        b == occurs_at(s@, p@, at as int),
{
    if at > s.len() || p.len() > s.len() - at {
        return false;
    }
    let mut k: usize = 0;
    while k < p.len()
        invariant
            at + p.len() <= s.len(),
            k <= p.len(),
            forall|m: int| 0 <= m < k ==> s@[at + m] == p@[m],
        decreases p.len() - k,
    {
        if s[at + k] != p[k] {
            assert(s@.subrange(at as int, at + p.len())[k as int] != p@[k as int]);
            return false;
        }
        k = k + 1;
    }
    assert(s@.subrange(at as int, at + p.len()) =~= p@);
    true
}

/// The bounds `(start, end)` of `s` with leading and trailing white space
/// removed.
pub fn trim_bounds(s: &Vec<char>) -> (r: (usize, usize))
    ensures
        r.0 <= r.1 <= s.len(),
        s@.subrange(r.0 as int, r.1 as int) == trim(s@),
        forall|k: int| 0 <= k < r.0 ==> is_white_space(#[trigger] s@[k]),
        forall|k: int| r.1 <= k < s@.len() ==> is_white_space(#[trigger] s@[k]),
        r.0 < r.1 ==> !is_white_space(s@[r.0 as int]) && !is_white_space(s@[r.1 - 1]),
{
    let n = s.len();
    let mut i: usize = 0;
    assert(s@.subrange(0, n as int) =~= s@);
    while i < n && white_space(s[i])
        invariant
            n == s.len(),
            i <= n,
            trim_start(s@) == trim_start(s@.subrange(i as int, n as int)),
            forall|k: int| 0 <= k < i ==> is_white_space(#[trigger] s@[k]),
        decreases n - i,
    {
        assert(s@.subrange(i as int, n as int).drop_first() =~= s@.subrange(i + 1, n as int));
        i = i + 1;
    }
    let mut j: usize = n;
    while j > i && white_space(s[j - 1])
        invariant
            n == s.len(),
            i <= j <= n,
            trim(s@) == trim_end(s@.subrange(i as int, j as int)),
            forall|k: int| 0 <= k < i ==> is_white_space(#[trigger] s@[k]),
            forall|k: int| j <= k < n ==> is_white_space(#[trigger] s@[k]),
            i < n ==> !is_white_space(s@[i as int]),
        decreases j,
    {
        assert(s@.subrange(i as int, j as int).drop_last() =~= s@.subrange(i as int, j - 1));
        j = j - 1;
    }
    (i, j)
}

/// Whether `s` and `t` hold the same characters.
pub fn same_text(s: &str, t: &str) -> (b: bool)
    ensures
        b == (s@ == t@),
{
    s.to_owned() == t.to_owned()
}

/// Whether `s`, trimmed of white space at both ends, equals `t`.
pub fn trimmed_equals(s: &str, t: &str) -> (b: bool)
    ensures
        b == (trim(s@) == t@),
{
    let cs = chars_of(s);
    let ct = chars_of(t);
    let (a, z) = trim_bounds(&cs);
    if z - a != ct.len() {
        return false;
    }
    occurs_at_exec(&cs, &ct, a)
}

/// Whether `s`, trimmed of white space at both ends, begins with `p`.
pub fn trimmed_starts_with(s: &str, p: &str) -> (b: bool)
    ensures
        b == has_prefix(trim(s@), p@),
{
    let cs = chars_of(s);
    let cp = chars_of(p);
    let (a, z) = trim_bounds(&cs);
    if cp.len() > z - a {
        return false;
    }
    let r = occurs_at_exec(&cs, &cp, a);
    assert(trim(s@).subrange(0, cp@.len() as int) =~= cs@.subrange(a as int, a + cp.len()));
    r
}

/// Whether `s` begins with `p`.
pub fn starts_with(s: &str, p: &str) -> (b: bool)
    ensures
        b == has_prefix(s@, p@),
{
    let cs = chars_of(s);
    let cp = chars_of(p);
    occurs_at_exec(&cs, &cp, 0)
}

/// Whether `s` ends with `p`.
pub fn ends_with(s: &str, p: &str) -> (b: bool)
    ensures
        b == has_suffix(s@, p@),
{
    let cs = chars_of(s);
    let cp = chars_of(p);
    if cp.len() > cs.len() {
        return false;
    }
    occurs_at_exec(&cs, &cp, cs.len() - cp.len())
}

/// Whether `p` occurs somewhere in `s`.
pub fn contains(s: &str, p: &str) -> (b: bool)
    ensures
        b == has_infix(s@, p@),
{
    let cs = chars_of(s);
    let cp = chars_of(p);
    if cp.len() > cs.len() {
        assert forall|at: int| !occurs_at(s@, p@, at) by {}
        return false;
    }
    let last = cs.len() - cp.len();
    let mut at: usize = 0;
    while at < last
        invariant
            last + cp.len() == cs.len(),
            at <= last,
            cs@ == s@,
            cp@ == p@,
            forall|k: int| 0 <= k < at ==> !occurs_at(s@, p@, k),
        decreases last - at,
    {
        if occurs_at_exec(&cs, &cp, at) {
            return true;
        }
        at = at + 1;
    }
    if occurs_at_exec(&cs, &cp, last) {
        return true;
    }
    assert forall|k: int| !occurs_at(s@, p@, k) by {
        if k > last {
            assert(k + p@.len() > s@.len());
        }
    }
    false
}

/// Prefix property of `replace_all`: the pattern at the front is replaced.
proof fn lemma_replace_step(s: Seq<char>, from: Seq<char>, to: Seq<char>, i: int)
    requires
        0 <= i < s.len(),
        from.len() > 0,
    ensures
        occurs_at(s, from, i) ==> replace_all(s.subrange(i, s.len() as int), from, to) == to
            + replace_all(s.subrange(i + from.len(), s.len() as int), from, to),
        !occurs_at(s, from, i) ==> replace_all(s.subrange(i, s.len() as int), from, to) == seq![
            s[i],
        ] + replace_all(s.subrange(i + 1, s.len() as int), from, to),
{
    let t = s.subrange(i, s.len() as int);
    assert(t.len() > 0);
    if occurs_at(s, from, i) {
        assert(t.subrange(0, from.len() as int) =~= s.subrange(i, i + from.len()));
        assert(t.skip(from.len() as int) =~= s.subrange(i + from.len(), s.len() as int));
    } else {
        if has_prefix(t, from) {
            assert(t.subrange(0, from.len() as int) =~= s.subrange(i, i + from.len()));
        }
        assert(t.drop_first() =~= s.subrange(i + 1, s.len() as int));
    }
}

/// Replacement leaves a string without the pattern unchanged; a string that
/// starts with the pattern has that occurrence replaced and the rest
/// treated alike; a string that does not start with it keeps its first
/// character and has the rest treated alike.
pub proof fn lemma_replace_all_laws(s: Seq<char>, from: Seq<char>, to: Seq<char>)
    requires
        from.len() > 0,
    ensures
        (forall|at: int| !occurs_at(s, from, at)) ==> replace_all(s, from, to) == s,
        s.len() > 0 && occurs_at(s, from, 0) ==> replace_all(s, from, to) == to + replace_all(
            s.subrange(from.len() as int, s.len() as int),
            from,
            to,
        ),
        s.len() > 0 && !occurs_at(s, from, 0) ==> replace_all(s, from, to) == seq![s[0]]
            + replace_all(s.subrange(1, s.len() as int), from, to),
    decreases s.len(),
{
    if s.len() > 0 {
        lemma_replace_step(s, from, to, 0);
        assert(s.subrange(0, s.len() as int) =~= s);
        if forall|at: int| !occurs_at(s, from, at) {
            let rest = s.subrange(1, s.len() as int);
            assert forall|at: int| !occurs_at(rest, from, at) by {
                if occurs_at(rest, from, at) {
                    assert(s.subrange(at + 1, at + 1 + from.len()) =~= rest.subrange(at, at + from.len()));
                    assert(occurs_at(s, from, at + 1));
                }
            }
            lemma_replace_all_laws(rest, from, to);
            assert(seq![s[0]] + rest =~= s);
        }
    }
}

/// `s` with every occurrence of the non-empty pattern `from` replaced by
/// `to`, left to right and without overlap (as `str::replace` does).
pub fn replace(s: &str, from: &str, to: &str) -> (out: String)
    requires
        from@.len() > 0,
    ensures
        out@ == replace_all(s@, from@, to@),
{
    let cs = chars_of(s);
    let cf = chars_of(from);
    let n = cs.len();
    let mut out = String::new();
    let mut piece: usize = 0;
    let mut i: usize = 0;
    assert(s@.subrange(0, n as int) =~= s@);
    while i < n
        invariant
            n == cs.len(),
            cs@ == s@,
            cf@ == from@,
            cf@.len() > 0,
            piece <= i <= n,
            out@ + s@.subrange(piece as int, i as int) + replace_all(
                s@.subrange(i as int, n as int),
                from@,
                to@,
            ) == replace_all(s@, from@, to@),
        decreases n - i,
    {
        proof {
            lemma_replace_step(s@, from@, to@, i as int);
        }
        if occurs_at_exec(&cs, &cf, i) {
            let part = s.substring_char(piece, i);
            out.append(part);
            out.append(to);
            i = i + cf.len();
            piece = i;
            assert(s@.subrange(piece as int, i as int) =~= Seq::<char>::empty());
        } else {
            assert(s@.subrange(piece as int, i + 1) =~= s@.subrange(piece as int, i as int)
                + seq![s@[i as int]]);
            i = i + 1;
        }
    }
    let rest = s.substring_char(piece, n);
    out.append(rest);
    assert(s@.subrange(n as int, n as int) =~= Seq::<char>::empty());
    out
}

} // verus!
