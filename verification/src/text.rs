//! Character-level string helpers shared by the parsers: prefix and suffix
//! tests, character search, trimming, and ASCII case folding.
use vstd::prelude::*;
use vstd::string::StrSliceExecFns;
use vstd::string::StringExecFns;

verus! {

/// The remainder of `s` after removing every leading occurrence of `c`.
pub open spec fn drop_while_char(s: Seq<char>, c: char) -> Seq<char>
    decreases s.len(),
{
    if s.len() > 0 && s[0] == c {
        drop_while_char(s.drop_first(), c)
    } else {
        s
    }
}

proof fn lemma_drop_while_char_skip(s: Seq<char>, c: char, i: int)
    requires
        0 <= i <= s.len(),
        forall|j: int| 0 <= j < i ==> s[j] == c,
        i < s.len() ==> s[i] != c,
    ensures
        drop_while_char(s, c) == s.skip(i),
    decreases i,
{
    if i == 0 {
        assert(s.skip(0) == s);
    } else {
        assert(s.len() > 0 && s[0] == c);
        lemma_drop_while_char_skip(s.drop_first(), c, i - 1);
        assert(s.drop_first().skip(i - 1) == s.skip(i));
    }
}

/// Returns the suffix of `s` that starts at its first character other
/// than `c`.
pub fn trim_leading_char<'a>(s: &'a str, c: char) -> (r: &'a str)
    ensures
        r@ == drop_while_char(s@, c),
{
    let n = s.unicode_len();
    let mut i: usize = 0;
    while i < n && s.get_char(i) == c
        invariant
            i <= n,
            n == s@.len(),
            forall|j: int| 0 <= j < i ==> s@[j] == c,
        decreases n - i,
    {
        i = i + 1;
    }
    proof {
        lemma_drop_while_char_skip(s@, c, i as int);
        assert(s@.skip(i as int) == s@.subrange(i as int, s@.len() as int));
    }
    s.substring_char(i, n)
}

/// Whether `prefix` is a prefix of `s`, compared character by character.
pub fn str_starts_with(s: &str, prefix: &str) -> (r: bool)
    ensures
        r == prefix@.is_prefix_of(s@),
{
    let n = s.unicode_len();
    let p = prefix.unicode_len();
    if p > n {
        return false;
    }
    let mut i: usize = 0;
    while i < p
        invariant
            i <= p,
            p <= n,
            n == s@.len(),
            p == prefix@.len(),
            forall|j: int| 0 <= j < i ==> s@[j] == prefix@[j],
        decreases p - i,
    {
        if s.get_char(i) != prefix.get_char(i) {
            assert(s@.subrange(0, p as int)[i as int] != prefix@[i as int]);
            return false;
        }
        i = i + 1;
    }
    proof {
        assert(prefix@ =~= s@.subrange(0, p as int));
    }
    true
}

/// Whether `suffix` is a suffix of `s`, compared character by character.
pub fn str_ends_with(s: &str, suffix: &str) -> (r: bool)
    ensures
        r == suffix@.is_suffix_of(s@),
{
    let n = s.unicode_len();
    let p = suffix.unicode_len();
    if p > n {
        return false;
    }
    let off = n - p;
    let mut i: usize = 0;
    while i < p
        invariant
            i <= p,
            off == n - p,
            p <= n,
            n == s@.len(),
            p == suffix@.len(),
            forall|j: int| 0 <= j < i ==> s@[off + j] == suffix@[j],
        decreases p - i,
    {
        if s.get_char(off + i) != suffix.get_char(i) {
            assert(s@.subrange(n - p, n as int)[i as int] != suffix@[i as int]);
            return false;
        }
        i = i + 1;
    }
    proof {
        assert(suffix@ =~= s@.subrange(n - p, n as int));
    }
    true
}

/// Whether the two strings hold the same characters.
pub fn str_eq(a: &str, b: &str) -> (r: bool)
    ensures
        r == (a@ == b@),
{
    let n = a.unicode_len();
    if n != b.unicode_len() {
        return false;
    }
    let mut i: usize = 0;
    while i < n
        invariant
            i <= n,
            n == a@.len(),
            n == b@.len(),
            forall|j: int| 0 <= j < i ==> a@[j] == b@[j],
        decreases n - i,
    {
        if a.get_char(i) != b.get_char(i) {
            return false;
        }
        i = i + 1;
    }
    proof {
        assert(a@ =~= b@);
    }
    true
}

/// The position of the first occurrence of `c` in `s`, if any.
pub fn find_char(s: &str, c: char) -> (r: Option<usize>)
    ensures
        match r {
            Some(i) => i < s@.len() && s@[i as int] == c && forall|j: int|
                0 <= j < i ==> s@[j] != c,
            None => forall|j: int| 0 <= j < s@.len() ==> s@[j] != c,
        },
{
    let n = s.unicode_len();
    let mut i: usize = 0;
    while i < n
        invariant
            i <= n,
            n == s@.len(),
            forall|j: int| 0 <= j < i ==> s@[j] != c,
        decreases n - i,
    {
        if s.get_char(i) == c {
            return Some(i);
        }
        i = i + 1;
    }
    None
}

/// Whether `c` is an ASCII blank: a space, a tab or a carriage return.
pub open spec fn is_blank(c: char) -> bool {
    c == ' ' || c == '\t' || c == '\r'
}

/// The string without its leading blanks.
pub open spec fn drop_leading_blanks(s: Seq<char>) -> Seq<char>
    decreases s.len(),
{
    if s.len() > 0 && is_blank(s[0]) {
        drop_leading_blanks(s.drop_first())
    } else {
        s
    }
}

/// The string without its trailing blanks.
pub open spec fn drop_trailing_blanks(s: Seq<char>) -> Seq<char>
    decreases s.len(),
{
    if s.len() > 0 && is_blank(s.last()) {
        drop_trailing_blanks(s.drop_last())
    } else {
        s
    }
}

proof fn lemma_drop_leading_blanks_skip(s: Seq<char>, i: int)
    requires
        0 <= i <= s.len(),
        forall|j: int| 0 <= j < i ==> is_blank(s[j]),
        i < s.len() ==> !is_blank(s[i]),
    ensures
        drop_leading_blanks(s) == s.skip(i),
    decreases i,
{
    if i == 0 {
        assert(s.skip(0) == s);
    } else {
        assert(s.len() > 0 && is_blank(s[0]));
        lemma_drop_leading_blanks_skip(s.drop_first(), i - 1);
        assert(s.drop_first().skip(i - 1) == s.skip(i));
    }
}

proof fn lemma_drop_trailing_blanks_take(s: Seq<char>, i: int)
    requires
        0 <= i <= s.len(),
        forall|j: int| i <= j < s.len() ==> is_blank(s[j]),
        i > 0 ==> !is_blank(s[i - 1]),
    ensures
        drop_trailing_blanks(s) == s.take(i),
    decreases s.len() - i,
{
    if i == s.len() {
        assert(s.take(i) =~= s);
        if s.len() > 0 {
            assert(!is_blank(s.last()));
        }
    } else {
        assert(is_blank(s.last()));
        lemma_drop_trailing_blanks_take(s.drop_last(), i);
        assert(s.drop_last().take(i) =~= s.take(i));
    }
}

/// The string without leading or trailing blanks.
pub open spec fn trim_blanks_spec(s: Seq<char>) -> Seq<char> {
    drop_trailing_blanks(drop_leading_blanks(s))
}

/// Strips leading and trailing spaces and tabs.
pub fn trim_blanks<'a>(s: &'a str) -> (r: &'a str)
    ensures
        r@ == trim_blanks_spec(s@),
{
    let n = s.unicode_len();
    let mut a: usize = 0;
    while a < n && (s.get_char(a) == ' ' || s.get_char(a) == '\t' || s.get_char(a) == '\r')
        invariant
            a <= n,
            n == s@.len(),
            forall|j: int| 0 <= j < a ==> is_blank(s@[j]),
        decreases n - a,
    {
        a = a + 1;
    }
    proof {
        lemma_drop_leading_blanks_skip(s@, a as int);
    }
    let mut b: usize = n;
    while b > a && (s.get_char(b - 1) == ' ' || s.get_char(b - 1) == '\t' || s.get_char(b - 1)
        == '\r')
        invariant
            a <= b <= n,
            n == s@.len(),
            forall|j: int| b <= j < n ==> is_blank(s@[j]),
        decreases b,
    {
        b = b - 1;
    }
    let r = s.substring_char(a, b);
    proof {
        let head = s@.skip(a as int);
        if b > a {
            lemma_drop_trailing_blanks_take(head, b - a);
        } else {
            assert(forall|j: int| 0 <= j < head.len() ==> is_blank(head[j]));
            lemma_drop_trailing_blanks_take(head, 0);
        }
        assert(head.take(b - a) =~= s@.subrange(a as int, b as int));
        assert(r@ =~= s@.subrange(a as int, b as int));
    }
    r
}

/// The string without its trailing occurrences of `c`.
pub open spec fn drop_trailing_char(s: Seq<char>, c: char) -> Seq<char>
    decreases s.len(),
{
    if s.len() > 0 && s.last() == c {
        drop_trailing_char(s.drop_last(), c)
    } else {
        s
    }
}

proof fn lemma_drop_trailing_char_take(s: Seq<char>, c: char, i: int)
    requires
        0 <= i <= s.len(),
        forall|j: int| i <= j < s.len() ==> s[j] == c,
        i > 0 ==> s[i - 1] != c,
    ensures
        drop_trailing_char(s, c) == s.take(i),
    decreases s.len() - i,
{
    if i == s.len() {
        assert(s.take(i) =~= s);
    } else {
        assert(s.last() == c);
        lemma_drop_trailing_char_take(s.drop_last(), c, i);
        assert(s.drop_last().take(i) =~= s.take(i));
    }
}

/// Returns the prefix of `s` that ends at its last character other
/// than `c`.
pub fn trim_trailing_char<'a>(s: &'a str, c: char) -> (r: &'a str)
    ensures
        r@ == drop_trailing_char(s@, c),
{
    let n = s.unicode_len();
    let mut b: usize = n;
    while b > 0 && s.get_char(b - 1) == c
        invariant
            b <= n,
            n == s@.len(),
            forall|j: int| b <= j < n ==> s@[j] == c,
        decreases b,
    {
        b = b - 1;
    }
    proof {
        lemma_drop_trailing_char_take(s@, c, b as int);
        assert(s@.take(b as int) =~= s@.subrange(0, b as int));
    }
    s.substring_char(0, b)
}

/// Whether `c` occurs in `s`.
pub open spec fn contains_char(s: Seq<char>, c: char) -> bool {
    exists|i: int| 0 <= i < s.len() && s[i] == c
}

/// The position of the first occurrence of a character known to occur.
pub proof fn lemma_first_occurrence(s: Seq<char>, c: char) -> (i: int)
    requires
        contains_char(s, c),
    ensures
        0 <= i < s.len(),
        s[i] == c,
        forall|j: int| 0 <= j < i ==> s[j] != c,
    decreases s.len(),
{
    if s[0] == c {
        0
    } else {
        let k = choose|k: int| 0 <= k < s.len() && s[k] == c;
        assert(s.drop_first()[k - 1] == c);
        let i = lemma_first_occurrence(s.drop_first(), c);
        assert forall|j: int| 0 <= j < i + 1 implies s[j] != c by {
            if j >= 1 {
                assert(s[j] == s.drop_first()[j - 1]);
            }
        }
        i + 1
    }
}

/// Everything before the first occurrence of `c`, or all of `s` when `c`
/// does not occur.
pub open spec fn before_char(s: Seq<char>, c: char) -> Seq<char>
    decreases s.len(),
{
    if s.len() == 0 || s[0] == c {
        Seq::empty()
    } else {
        seq![s[0]] + before_char(s.drop_first(), c)
    }
}

/// Everything after the first occurrence of `c`, or empty when `c` does
/// not occur.
pub open spec fn after_char(s: Seq<char>, c: char) -> Seq<char>
    decreases s.len(),
{
    if s.len() == 0 {
        Seq::empty()
    } else if s[0] == c {
        s.drop_first()
    } else {
        after_char(s.drop_first(), c)
    }
}

/// Splitting at the first occurrence of `c` (at position `i`, or absent
/// when `i` is the length) takes what stands before it and after it.
pub proof fn lemma_split_at_char(s: Seq<char>, c: char, i: int)
    requires
        0 <= i <= s.len(),
        forall|j: int| 0 <= j < i ==> s[j] != c,
        i < s.len() ==> s[i] == c,
    ensures
        i < s.len() ==> before_char(s, c) == s.take(i) && after_char(s, c) == s.skip(i + 1),
        i == s.len() ==> before_char(s, c) == s && after_char(s, c) == Seq::<char>::empty(),
    decreases i,
{
    if i == 0 {
        if s.len() > 0 {
            assert(before_char(s, c) =~= s.take(0));
        } else {
            assert(before_char(s, c) =~= s);
        }
    } else {
        lemma_split_at_char(s.drop_first(), c, i - 1);
        if i < s.len() {
            assert(before_char(s, c) =~= seq![s[0]] + s.drop_first().take(i - 1));
            assert(seq![s[0]] + s.drop_first().take(i - 1) =~= s.take(i));
            assert(s.drop_first().skip(i) =~= s.skip(i + 1));
        } else {
            assert(before_char(s, c) =~= seq![s[0]] + s.drop_first());
            assert(seq![s[0]] + s.drop_first() =~= s);
        }
    }
}

/// Strict lexicographic order on character sequences, by code point; a
/// proper prefix comes first.
pub open spec fn lex_lt(a: Seq<char>, b: Seq<char>) -> bool
    decreases a.len(),
{
    if b.len() == 0 {
        false
    } else if a.len() == 0 {
        true
    } else if a[0] != b[0] {
        (a[0] as int) < (b[0] as int)
    } else {
        lex_lt(a.drop_first(), b.drop_first())
    }
}

proof fn lemma_lex_lt_skip(a: Seq<char>, b: Seq<char>, i: int)
    requires
        0 <= i <= a.len(),
        i <= b.len(),
        forall|j: int| 0 <= j < i ==> a[j] == b[j],
    ensures
        lex_lt(a, b) == lex_lt(a.skip(i), b.skip(i)),
    decreases i,
{
    if i > 0 {
        lemma_lex_lt_skip(a.drop_first(), b.drop_first(), i - 1);
        assert(a.drop_first().skip(i - 1) == a.skip(i));
        assert(b.drop_first().skip(i - 1) == b.skip(i));
    } else {
        assert(a.skip(0) == a);
        assert(b.skip(0) == b);
    }
}

/// The order is total: of two distinct sequences, exactly one comes
/// first.
pub proof fn lemma_lex_trichotomy(a: Seq<char>, b: Seq<char>)
    ensures
        lex_lt(a, b) ==> !lex_lt(b, a) && a != b,
        !lex_lt(a, b) && !lex_lt(b, a) ==> a == b,
    decreases a.len(),
{
    if a.len() > 0 && b.len() > 0 && a[0] == b[0] {
        lemma_lex_trichotomy(a.drop_first(), b.drop_first());
        if !lex_lt(a, b) && !lex_lt(b, a) {
            assert(a.drop_first() == b.drop_first());
            assert forall|i: int| 0 <= i < a.len() implies a[i] == b[i] by {
                if i >= 1 {
                    assert(a[i] == a.drop_first()[i - 1]);
                    assert(b[i] == b.drop_first()[i - 1]);
                }
            }
            assert(a =~= b);
        }
    } else {
        if a.len() == 0 && b.len() == 0 {
            assert(a =~= b);
        }
    }
}

/// The order is transitive.
pub proof fn lemma_lex_trans(a: Seq<char>, b: Seq<char>, c: Seq<char>)
    requires
        lex_lt(a, b),
        lex_lt(b, c),
    ensures
        lex_lt(a, c),
    decreases a.len() + b.len() + c.len(),
{
    if a.len() > 0 && b.len() > 0 && c.len() > 0 {
        if a[0] == b[0] && b[0] == c[0] {
            lemma_lex_trans(a.drop_first(), b.drop_first(), c.drop_first());
        }
    }
}

/// Compares two strings in strict lexicographic order by code point.
pub fn str_lex_lt(a: &str, b: &str) -> (r: bool)
    ensures
        r == lex_lt(a@, b@),
{
    let an = a.unicode_len();
    let bn = b.unicode_len();
    let mut i: usize = 0;
    loop
        invariant
            i <= an,
            i <= bn,
            an == a@.len(),
            bn == b@.len(),
            forall|j: int| 0 <= j < i ==> a@[j] == b@[j],
        decreases an - i,
    {
        proof {
            lemma_lex_lt_skip(a@, b@, i as int);
        }
        if i >= bn {
            return false;
        }
        if i >= an {
            return true;
        }
        let ca = a.get_char(i);
        let cb = b.get_char(i);
        if ca != cb {
            return (ca as u32) < (cb as u32);
        }
        i = i + 1;
    }
}

/// ASCII upper-casing of one character; other characters are unchanged.
pub open spec fn ascii_upper_char(c: char) -> char {
    if 'a' <= c && c <= 'z' {
        ((c as u8) - 0x20) as char
    } else {
        c
    }
}

/// Relies on `String::push`: appends one character to the end of the string.
#[verifier::external_body]
pub fn push_char(s: &mut String, c: char)
    ensures
        final(s)@ == old(s)@.push(c),
{
    s.push(c);
}

/// The string with every ASCII lower-case letter replaced by its upper-case
/// form; all other characters are kept.
pub fn ascii_upper(s: &str) -> (r: String)
    ensures
        r@ == s@.map_values(|c: char| ascii_upper_char(c)),
{
    let n = s.unicode_len();
    let mut out = String::new();
    let mut i: usize = 0;
    while i < n
        invariant
            i <= n,
            n == s@.len(),
            out@ == s@.take(i as int).map_values(|c: char| ascii_upper_char(c)),
        decreases n - i,
    {
        let c = s.get_char(i);
        let up = if 'a' <= c && c <= 'z' {
            ((c as u8) - 0x20) as char
        } else {
            c
        };
        push_char(&mut out, up);
        proof {
            assert(s@.take(i + 1).map_values(|c: char| ascii_upper_char(c)) =~= s@.take(
                i as int,
            ).map_values(|c: char| ascii_upper_char(c)).push(ascii_upper_char(s@[i as int])));
        }
        i = i + 1;
    }
    proof {
        assert(s@.take(n as int) =~= s@);
    }
    out
}

} // verus!
