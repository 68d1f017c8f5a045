//! Text built by the discovery logic: decimal numbers, dotted IPv4
//! addresses, URLs, and the few string searches the logic needs.

use vstd::prelude::*;
use vstd::string::*;

verus! {

broadcast use vstd::string::group_string_axioms;

/// The character of a decimal digit.
pub open spec fn digit_char(d: nat) -> char {
    if d == 0 { '0' }
    else if d == 1 { '1' }
    else if d == 2 { '2' }
    else if d == 3 { '3' }
    else if d == 4 { '4' }
    else if d == 5 { '5' }
    else if d == 6 { '6' }
    else if d == 7 { '7' }
    else if d == 8 { '8' }
    else { '9' }
}

/// The decimal notation of `n`, without leading zeros (`0` is written `0`).
pub open spec fn decimal(n: nat) -> Seq<char>
    decreases n,
{
    if n < 10 {
        seq![digit_char(n)]
    } else {
        decimal(n / 10).push(digit_char(n % 10))
    }
}

fn digit_str(d: u32) -> (s: &'static str)
    requires
        d < 10,
    ensures
        s@ == seq![digit_char(d as nat)],
{
    proof {
        reveal_strlit("0");
        reveal_strlit("1");
        reveal_strlit("2");
        reveal_strlit("3");
        reveal_strlit("4");
        reveal_strlit("5");
        reveal_strlit("6");
        reveal_strlit("7");
        reveal_strlit("8");
        reveal_strlit("9");
    }
    if d == 0 { "0" }
    else if d == 1 { "1" }
    else if d == 2 { "2" }
    else if d == 3 { "3" }
    else if d == 4 { "4" }
    else if d == 5 { "5" }
    else if d == 6 { "6" }
    else if d == 7 { "7" }
    else if d == 8 { "8" }
    else { "9" }
}

/// Writes `n` in decimal, as `u32`'s `Display` does.
pub fn decimal_text(n: u32) -> (s: String)
    ensures
        s@ == decimal(n as nat),
    decreases n,
{
    if n < 10 {
        String::from_str(digit_str(n))
    } else {
        let mut s = decimal_text(n / 10);
        s.append(digit_str(n % 10));
        s
    }
}

/// The dotted-quad notation of an IPv4 address held as a big-endian `u32`
/// (the first octet in the high byte), as `Ipv4Addr`'s `Display` writes it.
pub open spec fn ipv4_text(ip: u32) -> Seq<char> {
    decimal((ip / 0x100_0000) as nat) + seq!['.'] + decimal(((ip / 0x1_0000) % 0x100) as nat)
        + seq!['.'] + decimal(((ip / 0x100) % 0x100) as nat) + seq!['.'] + decimal(
        (ip % 0x100) as nat,
    )
}

/// Writes an IPv4 address in dotted-quad notation.
pub fn ipv4_to_string(ip: u32) -> (s: String)
    ensures
        s@ == ipv4_text(ip),
{
    proof {
        reveal_strlit(".");
    }
    let mut s = decimal_text(ip / 0x100_0000);
    s.append(".");
    let b = decimal_text((ip / 0x1_0000) % 0x100);
    s.append(b.as_str());
    s.append(".");
    let c = decimal_text((ip / 0x100) % 0x100);
    s.append(c.as_str());
    s.append(".");
    let d = decimal_text(ip % 0x100);
    s.append(d.as_str());
    s
}

/// `needle` occurs in `hay` as a run of consecutive characters.
pub open spec fn has_substring(hay: Seq<char>, needle: Seq<char>) -> bool {
    exists|i: int|
        0 <= i && i + needle.len() <= hay.len() && #[trigger] hay.subrange(i, i + needle.len())
            == needle
}

/// Whether `needle` occurs in `hay`, as `str::contains` answers for a
/// string pattern.
pub fn contains_text(hay: &str, needle: &str) -> (found: bool)
    ensures
        found == has_substring(hay@, needle@),
{
    let n = hay.unicode_len();
    let m = needle.unicode_len();
    if m > n {
        assert(!has_substring(hay@, needle@));
        return false;
    }
    let mut i: usize = 0;
    while i <= n - m
        invariant
            n == hay@.len(),
            m == needle@.len(),
            m <= n,
            i <= n - m + 1,
            forall|k: int| 0 <= k < i ==> #[trigger] hay@.subrange(k, k + m) != needle@,
        decreases n - m + 1 - i,
    {
        let mut j: usize = 0;
        let mut same = true;
        while j < m
            invariant
                n == hay@.len(),
                m == needle@.len(),
                m <= n,
                i <= n - m,
                j <= m,
                same == (forall|t: int| 0 <= t < j ==> hay@[i + t] == needle@[t]),
            decreases m - j,
        {
            if hay.get_char(i + j) != needle.get_char(j) {
                same = false;
            }
            j = j + 1;
        }
        if same {
            assert(hay@.subrange(i as int, i + m) =~= needle@);
            return true;
        }
        assert(hay@.subrange(i as int, i + m) != needle@) by {
            let t = choose|t: int| 0 <= t < m && hay@[i + t] != needle@[t];
            assert(hay@.subrange(i as int, i + m)[t] == hay@[i + t]);
        }
        i = i + 1;
    }
    assert(!has_substring(hay@, needle@)) by {
        if has_substring(hay@, needle@) {
            let k = choose|k: int|
                0 <= k && k + m <= n && #[trigger] hay@.subrange(k, k + m) == needle@;
            assert(k < i);
        }
    }
    false
}

/// The lowercase form of a text, as `str::to_lowercase` computes it (by the
/// Unicode `Lowercase` mapping).
pub uninterp spec fn lowercase_text(s: Seq<char>) -> Seq<char>;

/// Calls `str::to_lowercase`; its result is named `lowercase_text`.
#[verifier::external_body]
pub(crate) fn to_lowercase(s: &str) -> (lower: String)
    ensures
        lower@ == lowercase_text(s@),
{
    s.to_lowercase()
}

/// `s` without its leading run of `c`.
pub open spec fn trim_leading(s: Seq<char>, c: char) -> Seq<char>
    decreases s.len(),
{
    if s.len() > 0 && s[0] == c {
        trim_leading(s.drop_first(), c)
    } else {
        s
    }
}

/// `s` without its trailing run of `c`.
pub open spec fn trim_trailing(s: Seq<char>, c: char) -> Seq<char>
    decreases s.len(),
{
    if s.len() > 0 && s.last() == c {
        trim_trailing(s.drop_last(), c)
    } else {
        s
    }
}

/// `s` with every leading and trailing `c` removed, as `str::trim_matches`
/// does with a character pattern.
pub open spec fn trim_char(s: Seq<char>, c: char) -> Seq<char> {
    trim_trailing(trim_leading(s, c), c)
}

proof fn lemma_trim_leading(s: Seq<char>, c: char, a: int)
    requires
        0 <= a <= s.len(),
        forall|k: int| 0 <= k < a ==> s[k] == c,
        a == s.len() || s[a] != c,
    ensures
        trim_leading(s, c) == s.subrange(a, s.len() as int),
    decreases a,
{
    if a == 0 {
        assert(s.subrange(0, s.len() as int) =~= s);
    } else {
        let t = s.drop_first();
        assert forall|k: int| 0 <= k < a - 1 implies t[k] == c by {
            assert(t[k] == s[k + 1]);
        }
        lemma_trim_leading(t, c, a - 1);
        assert(t.subrange(a - 1, t.len() as int) =~= s.subrange(a, s.len() as int));
    }
}

proof fn lemma_trim_trailing(s: Seq<char>, c: char, b: int)
    requires
        0 <= b <= s.len(),
        forall|k: int| b <= k < s.len() ==> s[k] == c,
        b == 0 || s[b - 1] != c,
    ensures
        trim_trailing(s, c) == s.subrange(0, b),
    decreases s.len() - b,
{
    if b == s.len() {
        assert(s.subrange(0, b) =~= s);
    } else {
        let t = s.drop_last();
        lemma_trim_trailing(t, c, b);
        assert(t.subrange(0, b) =~= s.subrange(0, b));
    }
}

proof fn lemma_trim_leading_start(s: Seq<char>, c: char)
    ensures
        trim_leading(s, c).len() > 0 ==> trim_leading(s, c)[0] != c,
    decreases s.len(),
{
    if s.len() > 0 && s[0] == c {
        lemma_trim_leading_start(s.drop_first(), c);
    }
}

proof fn lemma_trim_trailing_end(s: Seq<char>, c: char)
    ensures
        trim_trailing(s, c).len() <= s.len(),
        trim_trailing(s, c) == s.subrange(0, trim_trailing(s, c).len() as int),
        trim_trailing(s, c).len() > 0 ==> trim_trailing(s, c).last() != c,
    decreases s.len(),
{
    if s.len() > 0 && s.last() == c {
        lemma_trim_trailing_end(s.drop_last(), c);
        let t = trim_trailing(s.drop_last(), c);
        assert(s.drop_last().subrange(0, t.len() as int) =~= s.subrange(0, t.len() as int));
    } else {
        assert(s.subrange(0, s.len() as int) =~= s);
    }
}

/// A trimmed text neither starts nor ends with the trimmed character.
pub proof fn lemma_trim_char_ends(s: Seq<char>, c: char)
    ensures
        trim_char(s, c).len() > 0 ==> trim_char(s, c)[0] != c && trim_char(s, c).last() != c,
{
    let t = trim_leading(s, c);
    lemma_trim_leading_start(s, c);
    lemma_trim_trailing_end(t, c);
    let r = trim_trailing(t, c);
    if r.len() > 0 {
        assert(r[0] == t.subrange(0, r.len() as int)[0]);
    }
}

/// Removes every leading and trailing `c` from `s`.
pub fn trim_char_text(s: &str, c: char) -> (trimmed: String)
    ensures
        trimmed@ == trim_char(s@, c),
{
    let n = s.unicode_len();
    let mut a: usize = 0;
    while a < n && s.get_char(a) == c
        invariant
            n == s@.len(),
            a <= n,
            forall|k: int| 0 <= k < a ==> s@[k] == c,
        decreases n - a,
    {
        a = a + 1;
    }
    let mut b: usize = n;
    while b > a && s.get_char(b - 1) == c
        invariant
            n == s@.len(),
            a <= b <= n,
            forall|k: int| b <= k < n ==> s@[k] == c,
        decreases b - a,
    {
        b = b - 1;
    }
    proof {
        lemma_trim_leading(s@, c, a as int);
        let t = s@.subrange(a as int, n as int);
        assert forall|k: int| b - a <= k < t.len() implies t[k] == c by {
            assert(t[k] == s@[a + k]);
        }
        if b > a {
            assert(t[b - a - 1] == s@[b - 1]);
        }
        lemma_trim_trailing(t, c, b - a);
        assert(t.subrange(0, b - a) =~= s@.subrange(a as int, b as int));
    }
    String::from_str(s.substring_char(a, b))
}

} // verus!
