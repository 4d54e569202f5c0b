//! Verified text helpers: character classification, substring search,
//! slug construction and the stable string hash used for deterministic
//! template selection.
//!
//! Unicode questions that the standard library answers from its tables
//! (case folding a whole string, alphanumeric and whitespace classes)
//! are taken on trust from `std` behind small wrappers; everything built
//! on top of them is verified.

use vstd::prelude::*;

verus! {

/// The case-folded form of a character sequence, as `str::to_lowercase`
/// computes it. The result depends on the characters alone.
pub uninterp spec fn lower_of(s: Seq<char>) -> Seq<char>;

/// Relies on str::to_lowercase: the result depends on the characters alone.
#[verifier::external_body]
pub fn lowercase(s: &str) -> (r: String)
    ensures
        r@ == lower_of(s@),
{
    s.to_lowercase()
}

/// Whether a character is alphanumeric, as `char::is_alphanumeric`
/// decides it from the Unicode tables.
pub uninterp spec fn is_alnum(c: char) -> bool;

/// Relies on char::is_alphanumeric: the result depends on the character alone.
#[verifier::external_body]
pub fn char_is_alphanumeric(c: char) -> (r: bool)
    ensures
        r == is_alnum(c),
{
    c.is_alphanumeric()
}

/// Whether a character is whitespace, as `char::is_whitespace`
/// decides it from the Unicode tables.
pub uninterp spec fn is_space(c: char) -> bool;

/// Relies on char::is_whitespace: the result depends on the character alone.
#[verifier::external_body]
pub fn char_is_whitespace(c: char) -> (r: bool)
    ensures
        r == is_space(c),
{
    c.is_whitespace()
}

/// Relies on String::push: appends exactly the one character.
#[verifier::external_body]
pub fn push_char(s: &mut String, c: char)
    ensures
        final(s)@ == old(s)@.push(c),
{
    s.push(c);
}

/// A sequence is blank when every character in it is whitespace.
/// The empty sequence is blank.
pub open spec fn is_blank(s: Seq<char>) -> bool {
    forall|i: int| 0 <= i < s.len() ==> is_space(#[trigger] s[i])
}

/// Whether the string consists of whitespace alone (or is empty).
pub fn str_is_blank(s: &str) -> (r: bool)
    ensures
        r == is_blank(s@),
{
    let n = s.unicode_len();
    let mut i: usize = 0;
    while i < n
        invariant
            i <= n,
            n == s@.len(),
            forall|j: int| 0 <= j < i ==> is_space(#[trigger] s@[j]),
        decreases n - i,
    {
        let c = s.get_char(i);
        if !char_is_whitespace(c) {
            return false;
        }
        i = i + 1;
    }
    true
}

/// The characters of a string, gathered into a vector.
pub fn str_to_chars(s: &str) -> (r: Vec<char>)
    ensures
        r@ == s@,
{
    let n = s.unicode_len();
    let mut out: Vec<char> = Vec::new();
    let mut i: usize = 0;
    while i < n
        invariant
            i <= n,
            n == s@.len(),
            out@ == s@.subrange(0, i as int),
        decreases n - i,
    {
        out.push(s.get_char(i));
        proof {
            assert(out@ =~= s@.subrange(0, i + 1));
        }
        i = i + 1;
    }
    proof {
        assert(s@.subrange(0, n as int) =~= s@);
    }
    out
}

/// Whether two strings hold the same characters.
pub fn str_eq(a: &str, b: &str) -> (r: bool)
    ensures
        r == (a@ == b@),
{
    let na = a.unicode_len();
    let nb = b.unicode_len();
    if na != nb {
        return false;
    }
    let mut i: usize = 0;
    while i < na
        invariant
            i <= na,
            na == a@.len(),
            na == b@.len(),
            forall|j: int| 0 <= j < i ==> a@[j] == b@[j],
        decreases na - i,
    {
        if a.get_char(i) != b.get_char(i) {
            return false;
        }
        i = i + 1;
    }
    proof {
        assert(a@ =~= b@);
    }
    true
}

/// Whether `n` occurs as a contiguous run of characters inside `h`.
pub open spec fn spec_contains(h: Seq<char>, n: Seq<char>) -> bool {
    exists|i: int|
        0 <= i <= h.len() - n.len() && #[trigger] h.subrange(i, i + n.len() as int) == n
}

/// Whether `needle` occurs as a substring of `haystack`.
#[verifier::loop_isolation(false)]
pub fn contains_str(haystack: &str, needle: &str) -> (r: bool)
    ensures
        r == spec_contains(haystack@, needle@),
{
    let h = str_to_chars(haystack);
    let n = str_to_chars(needle);
    if n.len() > h.len() {
        return false;
    }
    if n.len() == 0 {
        proof {
            assert(haystack@.subrange(0, 0 + needle@.len() as int) =~= needle@);
        }
        return true;
    }
    let last = h.len() - n.len();
    let mut i: usize = 0;
    while i <= last
        invariant
            i <= last + 1,
            last == h@.len() - n@.len(),
            n@.len() >= 1,
            h@ == haystack@,
            n@ == needle@,
            forall|k: int|
                0 <= k < i ==> #[trigger] haystack@.subrange(k, k + needle@.len() as int)
                    != needle@,
        decreases last + 1 - i,
    {
        let mut j: usize = 0;
        while j < n.len() && h[i + j] == n[j]
            invariant
                j <= n@.len(),
                i + n@.len() <= h@.len(),
                h@ == haystack@,
                n@ == needle@,
                forall|t: int| 0 <= t < j ==> h@[i + t] == n@[t],
            decreases n@.len() - j,
        {
            j = j + 1;
        }
        if j == n.len() {
            proof {
                assert(haystack@.subrange(i as int, i + needle@.len() as int) =~= needle@);
            }
            return true;
        }
        proof {
            assert(haystack@.subrange(i as int, i + needle@.len() as int)[j as int]
                != needle@[j as int]);
        }
        i = i + 1;
    }
    false
}

/// Whether `p` is a prefix of `s`.
pub open spec fn spec_starts_with(s: Seq<char>, p: Seq<char>) -> bool {
    s.len() >= p.len() && s.subrange(0, p.len() as int) == p
}

/// Whether `prefix` begins the string `s`.
pub fn starts_with_str(s: &str, prefix: &str) -> (r: bool)
    ensures
        r == spec_starts_with(s@, prefix@),
{
    let n = s.unicode_len();
    let np = prefix.unicode_len();
    if np > n {
        return false;
    }
    let mut i: usize = 0;
    while i < np
        invariant
            i <= np,
            np <= n,
            n == s@.len(),
            np == prefix@.len(),
            forall|j: int| 0 <= j < i ==> s@[j] == prefix@[j],
        decreases np - i,
    {
        if s.get_char(i) != prefix.get_char(i) {
            proof {
                assert(s@.subrange(0, prefix@.len() as int)[i as int] != prefix@[i as int]);
            }
            return false;
        }
        i = i + 1;
    }
    proof {
        assert(s@.subrange(0, prefix@.len() as int) =~= prefix@);
    }
    true
}

/// A string holding exactly the characters of `chars`.
pub fn string_from_chars(chars: &Vec<char>) -> (r: String)
    ensures
        r@ == chars@,
{
    let mut out = String::new();
    let mut i: usize = 0;
    while i < chars.len()
        invariant
            i <= chars@.len(),
            out@ == chars@.subrange(0, i as int),
        decreases chars@.len() - i,
    {
        push_char(&mut out, chars[i]);
        proof {
            assert(out@ =~= chars@.subrange(0, i + 1));
        }
        i = i + 1;
    }
    proof {
        assert(chars@.subrange(0, chars@.len() as int) =~= chars@);
    }
    out
}

/// Relies on char::from_u32: every value below the surrogate range
/// is a valid scalar and converts to the character with that code point.
pub assume_specification[ char::from_u32 ](v: u32) -> (r: Option<char>)
    ensures
        v < 0xD800 ==> r == Some(v as char),
;

/// The ASCII lowercase form of a character: letters `A` through `Z`
/// map to their lowercase counterparts, everything else is unchanged.
pub open spec fn to_lower_ascii(c: char) -> char {
    if 'A' <= c <= 'Z' {
        ((c as u32) + 32) as char
    } else {
        c
    }
}

/// Lower an ASCII uppercase letter, leaving every other character alone.
pub fn lower_ascii_char(c: char) -> (r: char)
    ensures
        r == to_lower_ascii(c),
{
    let u = c as u32;
    if 65 <= u && u <= 90 {
        let l = u + 32;
        char::from_u32(l).unwrap()
    } else {
        c
    }
}

/// How one character appears in a slug: alphanumerics are lowered
/// (in the ASCII sense), everything else becomes an underscore.
pub open spec fn slug_map(c: char) -> char {
    if is_alnum(c) {
        to_lower_ascii(c)
    } else {
        '_'
    }
}

/// Drop leading underscores.
pub open spec fn trim_front(s: Seq<char>) -> Seq<char>
    decreases s.len(),
{
    if s.len() > 0 && s[0] == '_' {
        trim_front(s.drop_first())
    } else {
        s
    }
}

/// Drop trailing underscores.
pub open spec fn trim_back(s: Seq<char>) -> Seq<char>
    decreases s.len(),
{
    if s.len() > 0 && s[s.len() - 1] == '_' {
        trim_back(s.drop_last())
    } else {
        s
    }
}

/// The slug of a character sequence: each character mapped by
/// `slug_map`, then underscores trimmed from both ends.
pub open spec fn slug_of(s: Seq<char>) -> Seq<char> {
    trim_back(trim_front(s.map_values(|c: char| slug_map(c))))
}

proof fn lemma_trim_front_skip(s: Seq<char>, k: int)
    requires
        0 <= k <= s.len(),
        forall|j: int| 0 <= j < k ==> s[j] == '_',
    ensures
        trim_front(s) == trim_front(s.skip(k)),
    decreases k,
{
    if k > 0 {
        assert(s.len() > 0 && s[0] == '_');
        assert(s.drop_first() =~= s.skip(1));
        lemma_trim_front_skip(s.skip(1), k - 1);
        assert(s.skip(1).skip(k - 1) =~= s.skip(k));
    } else {
        assert(s.skip(0) =~= s);
    }
}

proof fn lemma_trim_back_take(s: Seq<char>, k: int)
    requires
        0 <= k <= s.len(),
        forall|j: int| k <= j < s.len() ==> s[j] == '_',
    ensures
        trim_back(s) == trim_back(s.take(k)),
    decreases s.len() - k,
{
    if k < s.len() {
        assert(s[s.len() - 1] == '_');
        lemma_trim_back_take(s.drop_last(), k);
        assert(s.drop_last().take(k) =~= s.take(k));
    } else {
        assert(s.take(s.len() as int) =~= s);
    }
}

/// Turn free text into an identifier: alphanumerics lowered, every other
/// character replaced by an underscore, underscores trimmed at both ends.
pub fn slugify(value: &str) -> (r: String)
    ensures
        r@ == slug_of(value@),
{
    let chars = str_to_chars(value);
    let mut mapped: Vec<char> = Vec::new();
    let mut i: usize = 0;
    while i < chars.len()
        invariant
            i <= chars@.len(),
            chars@ == value@,
            mapped@ == value@.map_values(|c: char| slug_map(c)).take(i as int),
        decreases chars@.len() - i,
    {
        let c = chars[i];
        let m = if char_is_alphanumeric(c) {
            lower_ascii_char(c)
        } else {
            '_'
        };
        mapped.push(m);
        proof {
            assert(mapped@ =~= value@.map_values(|c: char| slug_map(c)).take(i + 1));
        }
        i = i + 1;
    }
    let ghost full = value@.map_values(|c: char| slug_map(c));
    proof {
        assert(mapped@ =~= full);
    }
    // Trim underscores from the front.
    let mut lo: usize = 0;
    while lo < mapped.len() && mapped[lo] == '_'
        invariant
            lo <= mapped@.len(),
            mapped@ == full,
            forall|j: int| 0 <= j < lo ==> full[j] == '_',
        decreases mapped@.len() - lo,
    {
        lo = lo + 1;
    }
    proof {
        lemma_trim_front_skip(full, lo as int);
    }
    // Trim underscores from the back.
    let mut hi: usize = mapped.len();
    while hi > lo && mapped[hi - 1] == '_'
        invariant
            lo <= hi <= mapped@.len(),
            mapped@ == full,
            forall|j: int| 0 <= j < lo ==> full[j] == '_',
            forall|j: int| hi <= j < full.len() ==> full[j] == '_',
        decreases hi,
    {
        hi = hi - 1;
    }
    let mut kept: Vec<char> = Vec::new();
    let mut k: usize = lo;
    while k < hi
        invariant
            lo <= k <= hi <= mapped@.len(),
            mapped@ == full,
            kept@ == full.subrange(lo as int, k as int),
        decreases hi - k,
    {
        kept.push(mapped[k]);
        proof {
            assert(kept@ =~= full.subrange(lo as int, k + 1));
        }
        k = k + 1;
    }
    proof {
        let tf = trim_front(full);
        lemma_trim_front_skip(full, lo as int);
        assert(tf == full.skip(lo as int));
        if hi > lo {
            // The kept range ends at a non-underscore character, so trimming
            // the back of the front-trimmed sequence stops exactly at `hi`.
            lemma_trim_back_take(full.skip(lo as int), hi - lo as int);
            assert(full.skip(lo as int).take(hi - lo as int) =~= full.subrange(
                lo as int,
                hi as int,
            ));
            assert(trim_back(full.subrange(lo as int, hi as int)) == full.subrange(
                lo as int,
                hi as int,
            )) by {
                let seg = full.subrange(lo as int, hi as int);
                assert(seg[seg.len() - 1] == full[hi - 1]);
            }
        } else {
            // Everything was trimmed away.
            lemma_trim_back_take(full.skip(lo as int), 0);
            assert(full.skip(lo as int).take(0) =~= Seq::<char>::empty());
        }
        assert(kept@ =~= slug_of(value@));
    }
    string_from_chars(&kept)
}

/// The offset basis of the 64-bit FNV-1a hash.
pub const FNV_OFFSET: u64 = 14695981039346656037;

/// The multiplier of the 64-bit FNV-1a hash.
pub const FNV_PRIME: u64 = 1099511628211;

/// The 64-bit FNV-1a hash of a byte sequence.
pub open spec fn fnv1a(bytes: Seq<u8>) -> u64
    decreases bytes.len(),
{
    if bytes.len() == 0 {
        FNV_OFFSET
    } else {
        (fnv1a(bytes.drop_last()) ^ bytes.last() as u64).wrapping_mul(FNV_PRIME)
    }
}

/// The 64-bit FNV-1a hash of the string's UTF-8 bytes. Used to pick
/// commentary templates deterministically.
pub fn stable_hash(value: &str) -> (r: u64)
    ensures
        r == fnv1a(vstd::utf8::encode_utf8(value@)),
{
    let bytes = value.as_bytes();
    let mut hash: u64 = FNV_OFFSET;
    let mut i: usize = 0;
    while i < bytes.len()
        invariant
            i <= bytes@.len(),
            bytes@ == vstd::utf8::encode_utf8(value@),
            hash == fnv1a(bytes@.take(i as int)),
        decreases bytes@.len() - i,
    {
        hash = (hash ^ (bytes[i] as u64)).wrapping_mul(FNV_PRIME);
        proof {
            let pre = bytes@.take(i + 1);
            assert(pre.drop_last() =~= bytes@.take(i as int));
            assert(pre.last() == bytes@[i as int]);
        }
        i = i + 1;
    }
    proof {
        assert(bytes@.take(bytes@.len() as int) =~= bytes@);
    }
    hash
}


/// A fresh copy of a string list.
pub fn copy_strings(v: &Vec<String>) -> (r: Vec<String>)
    ensures
        r.deep_view() == v.deep_view(),
        r@.len() == v@.len(),
{
    let mut out: Vec<String> = Vec::new();
    let mut i: usize = 0;
    while i < v.len()
        invariant
            i <= v@.len(),
            out@.len() == i,
            out.deep_view() == v.deep_view().take(i as int),
        decreases v@.len() - i,
    {
        out.push(v[i].clone());
        proof {
            assert(forall|k: int|
                0 <= k < i ==> out.deep_view()[k] == v.deep_view().take(i as int)[k]);
            assert(out@[i as int] == v@[i as int]);
            assert(out.deep_view()[i as int] == v@[i as int]@);
            assert(v.deep_view()[i as int] == v@[i as int]@);
            assert(out.deep_view() =~= v.deep_view().take(i + 1));
        }
        i = i + 1;
    }
    proof {
        assert(v.deep_view().take(v@.len() as int) =~= v.deep_view());
    }
    out
}

/// A fresh copy of an optional string.
pub fn copy_opt_string(v: &Option<String>) -> (r: Option<String>)
    ensures
        match r {
            Some(s) => *v matches Some(t) && s@ == t@ && s == t,
            None => *v is None,
        },
{
    match v {
        Some(s) => Some(s.clone()),
        None => None,
    }
}

} // verus!
