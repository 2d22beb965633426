//! Character-level helpers over `str`, `String` and `Vec<char>`.

use vstd::prelude::*;

verus! {

/// Relies on `String::push`: appends exactly the given character.
#[verifier::external_body]
pub fn push_char(s: &mut String, c: char)
    ensures
        final(s)@ == old(s)@.push(c),
{
    s.push(c);
}

/// The characters of `s`, in order, as a vector.
pub fn to_chars(s: &str) -> (v: Vec<char>)
    ensures
        v@ == s@,
{
    let n = s.unicode_len();
    let mut v: Vec<char> = Vec::new();
    let mut i: usize = 0;
    while i < n
        invariant
            n == s@.len(),
            i <= n,
            v@ == s@.take(i as int),
        decreases n - i,
    {
        let c = s.get_char(i);
        v.push(c);
        i = i + 1;
        proof {
            assert(v@ =~= s@.take(i as int));
        }
    }
    proof {
        assert(v@ =~= s@);
    }
    v
}

/// Appends the characters of `v[from..to]` to `out`.
pub fn append_char_range(out: &mut String, v: &Vec<char>, from: usize, to: usize)
    requires
        from <= to <= v@.len(),
    ensures
        final(out)@ == old(out)@ + v@.subrange(from as int, to as int),
{
    let mut i: usize = from;
    while i < to
        invariant
            from <= i <= to <= v@.len(),
            out@ == old(out)@ + v@.subrange(from as int, i as int),
        decreases to - i,
    {
        push_char(out, v[i]);
        i = i + 1;
        proof {
            assert(old(out)@ + v@.subrange(from as int, i as int)
                =~= (old(out)@ + v@.subrange(from as int, i - 1)).push(v@[i - 1]));
        }
    }
}

/// The string holding exactly the characters of `v`.
pub fn chars_to_string(v: &Vec<char>) -> (r: String)
    ensures
        r@ == v@,
{
    let mut r = String::new();
    append_char_range(&mut r, v, 0, v.len());
    proof {
        assert(Seq::<char>::empty() + v@.subrange(0, v@.len() as int) =~= v@);
    }
    r
}

/// Whether two string slices hold the same characters.
pub fn str_eq(a: &str, b: &str) -> (r: bool)
    ensures
        r == (a@ == b@),
{
    let an = a.unicode_len();
    let bn = b.unicode_len();
    if an != bn {
        proof {
            assert(a@ != b@);
        }
        return false;
    }
    let mut i: usize = 0;
    while i < an
        invariant
            an == a@.len(),
            an == b@.len(),
            i <= an,
            forall|j: int| 0 <= j < i ==> a@[j] == b@[j],
        decreases an - i,
    {
        if a.get_char(i) != b.get_char(i) {
            proof {
                assert(a@[i as int] != b@[i as int]);
            }
            return false;
        }
        i = i + 1;
    }
    proof {
        assert(a@ =~= b@);
    }
    true
}

/// Whether `needle` occurs as a contiguous run of characters inside
/// `haystack`.
pub open spec fn spec_contains(haystack: Seq<char>, needle: Seq<char>) -> bool {
    exists|i: int|
        0 <= i && i + needle.len() <= haystack.len() && #[trigger] haystack.subrange(
            i,
            i + needle.len(),
        ) == needle
}

/// Whether `needle` occurs as a substring of `haystack`.
pub fn str_contains(haystack: &str, needle: &str) -> (r: bool)
    ensures
        r == spec_contains(haystack@, needle@),
{
    let h = to_chars(haystack);
    let n = to_chars(needle);
    if n.len() > h.len() {
        proof {
            assert(!spec_contains(haystack@, needle@));
        }
        return false;
    }
    let hlen = h.len();
    let nlen = n.len();
    let last_start = hlen - nlen;
    let mut i: usize = 0;
    while i <= last_start
        invariant
            h@ == haystack@,
            n@ == needle@,
            hlen == h@.len(),
            nlen == n@.len(),
            last_start == hlen - nlen,
            nlen <= hlen,
            i <= last_start + 1,
            forall|k: int|
                0 <= k < i ==> #[trigger] haystack@.subrange(k, k + needle@.len()) != needle@,
        decreases last_start + 1 - i,
    {
        let mut j: usize = 0;
        let mut matched = true;
        while j < nlen
            invariant
                h@ == haystack@,
                n@ == needle@,
                hlen == h@.len(),
                nlen == n@.len(),
                i + nlen <= hlen,
                j <= nlen,
                matched == (forall|t: int| 0 <= t < j ==> h@[i + t] == n@[t]),
            decreases nlen - j,
        {
            if h[i + j] != n[j] {
                matched = false;
                proof {
                    assert(h@[i + j] != n@[j as int]);
                }
                j = nlen;
            } else {
                j = j + 1;
            }
        }
        if matched {
            proof {
                assert(haystack@.subrange(i as int, i + needle@.len()) =~= needle@);
            }
            return true;
        }
        proof {
            let ii = i as int;
            assert(haystack@.subrange(ii, ii + needle@.len()) != needle@) by {
                let t = choose|t: int| 0 <= t < needle@.len() && h@[ii + t] != n@[t];
                assert(haystack@.subrange(ii, ii + needle@.len())[t] != needle@[t]);
            }
        }
        i = i + 1;
    }
    proof {
        assert(!spec_contains(haystack@, needle@));
    }
    false
}

} // verus!
