use vstd::prelude::*;
use vstd::string::{StrSliceExecFns, StringExecFns};

verus! {

/// The characters of `s`, in order.
pub fn chars_of(s: &str) -> (r: Vec<char>)
    ensures
        r@ == s@,
{
    let mut r: Vec<char> = Vec::new();
    for c in it: s.chars()
        invariant
            r@ == it.seq().take(it.index() as int),
    {
        r.push(c);
    }
    r
}

/// Whether `needle` occurs in `hay` as a contiguous run of characters.
pub open spec fn occurs_in(needle: Seq<char>, hay: Seq<char>) -> bool {
    exists|i: int|
        0 <= i && i + needle.len() <= hay.len() && #[trigger] hay.subrange(i, i + needle.len())
            == needle
}

/// Whether `a` and `b` agree on the `n` characters from `i` and `j`.
fn agree_at(a: &Vec<char>, i: usize, b: &Vec<char>, j: usize, n: usize) -> (r: bool)
    requires
        i + n <= a@.len(),
        j + n <= b@.len(),
    ensures
        r == (a@.subrange(i as int, i + n) == b@.subrange(j as int, j + n)),
{
    let alen = a.len();
    let blen = b.len();
    let mut k: usize = 0;
    while k < n
        invariant
            k <= n,
            alen == a@.len(),
            blen == b@.len(),
            i + n <= a@.len(),
            j + n <= b@.len(),
            a@.subrange(i as int, i + k) == b@.subrange(j as int, j + k),
        decreases n - k,
    {
        if a[i + k] != b[j + k] {
            proof {
                assert(a@.subrange(i as int, i + n)[k as int] != b@.subrange(j as int, j + n)[k as int]);
            }
            return false;
        }
        proof {
            assert(a@.subrange(i as int, i + k + 1) =~= a@.subrange(i as int, i + k).push(a@[i + k]));
            assert(b@.subrange(j as int, j + k + 1) =~= b@.subrange(j as int, j + k).push(b@[j + k]));
        }
        k = k + 1;
    }
    true
}

/// Whether `needle` occurs in `hay`.
pub fn contains_str(hay: &str, needle: &str) -> (r: bool)
    ensures
        r == occurs_in(needle@, hay@),
{
    let h = chars_of(hay);
    let n = chars_of(needle);
    if n.len() > h.len() {
        return false;
    }
    let last = h.len() - n.len();
    let mut i: usize = 0;
    loop
        invariant
            i <= last,
            h@ == hay@,
            n@ == needle@,
            last == h@.len() - n@.len(),
            n@.len() <= h@.len(),
            forall|t: int| 0 <= t < i ==> #[trigger] h@.subrange(t, t + n@.len()) != n@,
        decreases last + 1 - i,
    {
        if agree_at(&h, i, &n, 0, n.len()) {
            proof {
                assert(n@.subrange(0, n@.len() as int) =~= n@);
                assert(h@.subrange(i as int, i + n@.len()) == n@);
            }
            return true;
        }
        proof {
            assert(n@.subrange(0, n@.len() as int) =~= n@);
        }
        if i == last {
            return false;
        }
        i = i + 1;
    }
}

/// Whether `s` starts with `p`.
pub open spec fn has_prefix(s: Seq<char>, p: Seq<char>) -> bool {
    p.len() <= s.len() && s.subrange(0, p.len() as int) == p
}

/// Whether `s` ends with `p`.
pub open spec fn has_suffix(s: Seq<char>, p: Seq<char>) -> bool {
    p.len() <= s.len() && s.subrange(s.len() - p.len(), s.len() as int) == p
}

/// Whether `hay` starts with `prefix`.
pub fn starts_with(hay: &str, prefix: &str) -> (r: bool)
    ensures
        r == has_prefix(hay@, prefix@),
{
    let h = chars_of(hay);
    let p = chars_of(prefix);
    if p.len() > h.len() {
        return false;
    }
    let r = agree_at(&h, 0, &p, 0, p.len());
    proof {
        assert(p@.subrange(0, p@.len() as int) =~= p@);
    }
    r
}

/// Whether `hay` ends with `suffix`.
pub fn ends_with(hay: &str, suffix: &str) -> (r: bool)
    ensures
        r == has_suffix(hay@, suffix@),
{
    let h = chars_of(hay);
    let p = chars_of(suffix);
    if p.len() > h.len() {
        return false;
    }
    let r = agree_at(&h, h.len() - p.len(), &p, 0, p.len());
    proof {
        assert(p@.subrange(0, p@.len() as int) =~= p@);
    }
    r
}

/// `s` with every leading repetition of the non-empty pattern `p` removed.
pub open spec fn strip_leading(s: Seq<char>, p: Seq<char>) -> Seq<char>
    decreases s.len(),
{
    if 0 < p.len() <= s.len() && s.subrange(0, p.len() as int) == p {
        strip_leading(s.subrange(p.len() as int, s.len() as int), p)
    } else {
        s
    }
}

/// `s` with every trailing repetition of the non-empty pattern `p` removed.
pub open spec fn strip_trailing(s: Seq<char>, p: Seq<char>) -> Seq<char>
    decreases s.len(),
{
    if 0 < p.len() <= s.len() && s.subrange(s.len() - p.len(), s.len() as int) == p {
        strip_trailing(s.subrange(0, s.len() - p.len()), p)
    } else {
        s
    }
}

/// `s` without the repetitions of `p` at its start (as `str::trim_start_matches`).
pub fn trim_start_matches(s: &str, p: &str) -> (r: String)
    ensures
        r@ == strip_leading(s@, p@),
{
    let h = chars_of(s);
    let q = chars_of(p);
    let hlen = h.len();
    let plen = q.len();
    let mut pos: usize = 0;
    proof {
        assert(s@.subrange(0, hlen as int) =~= s@);
    }
    while 0 < plen && plen <= hlen - pos && agree_at(&h, pos, &q, 0, plen)
        invariant
            h@ == s@,
            q@ == p@,
            hlen == h@.len(),
            plen == q@.len(),
            pos <= hlen,
            strip_leading(s@, p@) == strip_leading(s@.subrange(pos as int, hlen as int), p@),
        decreases hlen - pos,
    {
        proof {
            let rest = s@.subrange(pos as int, hlen as int);
            assert(q@.subrange(0, plen as int) =~= q@);
            assert(rest.subrange(0, plen as int) =~= h@.subrange(pos as int, pos + plen));
            assert(rest.subrange(plen as int, rest.len() as int) =~= s@.subrange(pos + plen, hlen as int));
        }
        pos = pos + plen;
    }
    proof {
        let rest = s@.subrange(pos as int, hlen as int);
        if 0 < plen && plen <= hlen - pos {
            assert(q@.subrange(0, plen as int) =~= q@);
            assert(rest.subrange(0, plen as int) =~= h@.subrange(pos as int, pos + plen));
        }
    }
    owned(s.substring_char(pos, hlen))
}

/// `s` without the repetitions of `p` at its end (as `str::trim_end_matches`).
pub fn trim_end_matches(s: &str, p: &str) -> (r: String)
    ensures
        r@ == strip_trailing(s@, p@),
{
    let h = chars_of(s);
    let q = chars_of(p);
    let hlen = h.len();
    let plen = q.len();
    let mut end: usize = hlen;
    proof {
        assert(s@.subrange(0, hlen as int) =~= s@);
    }
    while 0 < plen && plen <= end && agree_at(&h, end - plen, &q, 0, plen)
        invariant
            h@ == s@,
            q@ == p@,
            hlen == h@.len(),
            plen == q@.len(),
            end <= hlen,
            strip_trailing(s@, p@) == strip_trailing(s@.subrange(0, end as int), p@),
        decreases end,
    {
        proof {
            let rest = s@.subrange(0, end as int);
            assert(q@.subrange(0, plen as int) =~= q@);
            assert(rest.subrange(end - plen, end as int) =~= h@.subrange(end - plen, end as int));
            assert(rest.subrange(0, end - plen) =~= s@.subrange(0, end - plen));
        }
        end = end - plen;
    }
    proof {
        let rest = s@.subrange(0, end as int);
        if 0 < plen && plen <= end {
            assert(q@.subrange(0, plen as int) =~= q@);
            assert(rest.subrange(end - plen, end as int) =~= h@.subrange(end - plen, end as int));
        }
    }
    owned(s.substring_char(0, end))
}

/// An owned copy of `s`.
pub fn owned(s: &str) -> (r: String)
    ensures
        r@ == s@,
{
    String::from_str(s)
}

/// The concatenation of `a` and `b`.
pub fn concat(a: &str, b: &str) -> (r: String)
    ensures
        r@ == a@ + b@,
{
    let mut r = String::from_str(a);
    r.append(b);
    r
}

/// Whether two strings hold the same characters.
pub fn same_str(a: &str, b: &str) -> (r: bool)
    ensures
        r == (a@ == b@),
{
    let x = chars_of(a);
    let y = chars_of(b);
    if x.len() != y.len() {
        return false;
    }
    let r = agree_at(&x, 0, &y, 0, x.len());
    proof {
        assert(x@.subrange(0, x@.len() as int) =~= x@);
        assert(y@.subrange(0, y@.len() as int) =~= y@);
    }
    r
}

/// Whether every character of `s` is ASCII.
pub open spec fn is_ascii_text(s: Seq<char>) -> bool {
    forall|i: int| 0 <= i < s.len() ==> (#[trigger] s[i] as u32) < 128
}

/// A character with an ASCII capital letter made small; any other stays.
pub open spec fn ascii_lower_char(c: char) -> char {
    if 65 <= (c as u32) <= 90 {
        ((c as u32) + 32) as char
    } else {
        c
    }
}

/// A character with an ASCII small letter made capital; any other stays.
pub open spec fn ascii_upper_char(c: char) -> char {
    if 97 <= (c as u32) <= 122 {
        ((c as u32) - 32) as char
    } else {
        c
    }
}

/// `s` with its ASCII capital letters made small.
pub open spec fn ascii_lowercase(s: Seq<char>) -> Seq<char> {
    s.map_values(|c: char| ascii_lower_char(c))
}

/// `s` with its ASCII small letters made capital.
pub open spec fn ascii_uppercase(s: Seq<char>) -> Seq<char> {
    s.map_values(|c: char| ascii_upper_char(c))
}

/// What `str::to_lowercase` returns for a string: its lowercase equivalent under the
/// Unicode lowercase mapping, which for most characters maps each one alone but takes
/// its neighbours into account for some (a capital sigma at the end of a word).
pub uninterp spec fn lowercase(s: Seq<char>) -> Seq<char>;

/// `str::to_lowercase`. Its result is named by `lowercase`. On ASCII text the Unicode
/// lowercase mapping makes each capital letter `A`..`Z` small and leaves every other
/// character as it is; what it does beyond ASCII is not stated here.
#[verifier::external_body]
pub(crate) fn to_lowercase(s: &str) -> (r: String)
    ensures
        r@ == lowercase(s@),
        is_ascii_text(s@) ==> r@ == ascii_lowercase(s@),
{
    s.to_lowercase()
}

} // verus!
