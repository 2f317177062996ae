//! Verified string helpers shared by the parsers: equality, classification,
//! slicing and number reading over `Seq<char>` views.

use vstd::prelude::*;
use vstd::string::StrSliceExecFns;

verus! {

/// Character-by-character string equality, specified against the views.
pub fn str_eq(a: &str, b: &str) -> (r: bool)
    ensures
        r == (a@ == b@),
{
    let alen = a.unicode_len();
    let blen = b.unicode_len();
    if alen != blen {
        return false;
    }
    let mut i: usize = 0;
    while i < alen
        invariant
            alen == a@.len(),
            blen == b@.len(),
            alen == blen,
            i <= alen,
            forall|j: int| 0 <= j < i ==> a@[j] == b@[j],
        decreases alen - i,
    {
        if a.get_char(i) != b.get_char(i) {
            return false;
        }
        i = i + 1;
    }
    proof {
        assert(a@ =~= b@);
    }
    true
}

/// Whitespace for trimming purposes.
pub open spec fn is_space(c: char) -> bool {
    c == ' ' || c == '\t' || c == '\n' || c == '\r'
}

pub open spec fn spec_trim_left(s: Seq<char>) -> Seq<char>
    decreases s.len(),
{
    if s.len() > 0 && is_space(s[0]) {
        spec_trim_left(s.drop_first())
    } else {
        s
    }
}

pub open spec fn spec_trim_right(s: Seq<char>) -> Seq<char>
    decreases s.len(),
{
    if s.len() > 0 && is_space(s.last()) {
        spec_trim_right(s.drop_last())
    } else {
        s
    }
}

/// The string with leading and trailing whitespace removed.
pub open spec fn spec_trim(s: Seq<char>) -> Seq<char> {
    spec_trim_right(spec_trim_left(s))
}

proof fn lemma_trim_left_skip(s: Seq<char>, i: int)
    requires
        0 <= i <= s.len(),
        forall|j: int| 0 <= j < i ==> is_space(s[j]),
    ensures
        spec_trim_left(s) == spec_trim_left(s.skip(i)),
    decreases i,
{
    if i > 0 {
        assert(s.drop_first() =~= s.skip(1));
        assert(s.skip(1).skip(i - 1) =~= s.skip(i));
        assert forall|j: int| 0 <= j < i - 1 implies is_space(s.skip(1)[j]) by {
            assert(s.skip(1)[j] == s[j + 1]);
        }
        lemma_trim_left_skip(s.skip(1), i - 1);
    } else {
        assert(s.skip(0) =~= s);
    }
}

proof fn lemma_trim_right_take(s: Seq<char>, i: int)
    requires
        0 <= i <= s.len(),
        forall|j: int| i <= j < s.len() ==> is_space(s[j]),
    ensures
        spec_trim_right(s) == spec_trim_right(s.take(i)),
    decreases s.len() - i,
{
    if i < s.len() {
        assert(s.drop_last() =~= s.take(s.len() - 1));
        assert forall|j: int| i <= j < s.len() - 1 implies is_space(
            #[trigger] s.take(s.len() - 1)[j],
        ) by {
            assert(s.take(s.len() - 1)[j] == s[j]);
        }
        lemma_trim_right_take(s.take(s.len() - 1), i);
        assert(s.take(s.len() - 1).take(i) =~= s.take(i));
    } else {
        assert(s.take(i) =~= s);
    }
}

fn is_space_char(c: char) -> (r: bool)
    ensures
        r == is_space(c),
{
    c == ' ' || c == '\t' || c == '\n' || c == '\r'
}

/// Trims leading and trailing whitespace, like `str::trim` on the blank
/// characters covered by `is_space`.
pub fn trim(s: &str) -> (r: &str)
    ensures
        r@ == spec_trim(s@),
{
    let len = s.unicode_len();
    let mut a: usize = 0;
    while a < len && is_space_char(s.get_char(a))
        invariant
            len == s@.len(),
            a <= len,
            forall|j: int| 0 <= j < a ==> is_space(s@[j]),
        decreases len - a,
    {
        a = a + 1;
    }
    let mut b: usize = len;
    while b > a && is_space_char(s.get_char(b - 1))
        invariant
            len == s@.len(),
            a <= b <= len,
            forall|j: int| b <= j < len ==> is_space(s@[j]),
        decreases b,
    {
        b = b - 1;
    }
    proof {
        lemma_trim_left_skip(s@, a as int);
        if a < len && b > a {
            // first char after a is not a space, so trim_left stops there
            assert(!is_space(s@.skip(a as int)[0]));
        }
        assert(spec_trim_left(s@) == s@.skip(a as int)) by {
            if a as int == s@.len() {
                assert(s@.skip(a as int) =~= Seq::<char>::empty());
            }
        }
        lemma_trim_right_take(s@.skip(a as int), b - a);
        if b > a {
            assert(s@.skip(a as int).take(b - a)[b - a - 1] == s@[b as int - 1]);
        }
        assert(spec_trim_right(s@.skip(a as int).take(b - a)) == s@.skip(a as int).take(b - a));
        assert(s@.skip(a as int).take(b - a) =~= s@.subrange(a as int, b as int));
    }
    s.substring_char(a, b)
}

/// Lowercasing of one ASCII character; everything else is kept as it is.
pub open spec fn spec_char_lower(c: char) -> char {
    if 'A' <= c && c <= 'Z' {
        ((c as u8) + 32) as char
    } else {
        c
    }
}

/// ASCII lowercasing of a whole string, character by character.
pub open spec fn spec_lower(s: Seq<char>) -> Seq<char> {
    s.map_values(|c: char| spec_char_lower(c))
}

/// Lowercases one character, ASCII-only.
pub fn char_lower(c: char) -> (r: char)
    ensures
        r == spec_char_lower(c),
{
    if 'A' <= c && c <= 'Z' {
        ((c as u8) + 32) as char
    } else {
        c
    }
}

/// Case-insensitive (ASCII) string equality.
pub fn str_eq_insensitive(a: &str, b: &str) -> (r: bool)
    ensures
        r == (spec_lower(a@) == spec_lower(b@)),
{
    let alen = a.unicode_len();
    let blen = b.unicode_len();
    if alen != blen {
        proof {
            assert(spec_lower(a@).len() != spec_lower(b@).len());
        }
        return false;
    }
    let mut i: usize = 0;
    while i < alen
        invariant
            alen == a@.len(),
            blen == b@.len(),
            alen == blen,
            i <= alen,
            forall|j: int| 0 <= j < i ==> spec_char_lower(a@[j]) == spec_char_lower(b@[j]),
        decreases alen - i,
    {
        if char_lower(a.get_char(i)) != char_lower(b.get_char(i)) {
            proof {
                assert(spec_lower(a@)[i as int] != spec_lower(b@)[i as int]);
            }
            return false;
        }
        i = i + 1;
    }
    proof {
        assert(spec_lower(a@) =~= spec_lower(b@));
    }
    true
}

/// `needle` occurs as a contiguous run inside `hay`.
pub open spec fn spec_contains_seq(hay: Seq<char>, needle: Seq<char>) -> bool {
    exists|i: int|
        0 <= i <= hay.len() - needle.len() && #[trigger] hay.subrange(i, i + needle.len() as int)
            =~= needle
}

fn matches_at(hay: &str, hlen: usize, i: usize, needle: &str, nlen: usize) -> (r: bool)
    requires
        hlen == hay@.len(),
        nlen == needle@.len(),
        i + nlen <= hlen,
    ensures
        r == (hay@.subrange(i as int, i as int + nlen as int) =~= needle@),
{
    let mut j: usize = 0;
    while j < nlen
        invariant
            hlen == hay@.len(),
            nlen == needle@.len(),
            i + nlen <= hlen,
            j <= nlen,
            forall|k: int| 0 <= k < j ==> hay@[i + k] == needle@[k],
        decreases nlen - j,
    {
        if hay.get_char(i + j) != needle.get_char(j) {
            proof {
                assert(hay@.subrange(i as int, i as int + nlen as int)[j as int] == hay@[i as int
                    + j]);
            }
            return false;
        }
        j = j + 1;
    }
    proof {
        assert(hay@.subrange(i as int, i as int + nlen as int) =~= needle@);
    }
    true
}

/// Substring search, specified against `spec_contains_seq`.
pub fn str_contains(hay: &str, needle: &str) -> (r: bool)
    ensures
        r == spec_contains_seq(hay@, needle@),
{
    let hlen = hay.unicode_len();
    let nlen = needle.unicode_len();
    if nlen > hlen {
        return false;
    }
    let mut i: usize = 0;
    while i <= hlen - nlen
        invariant
            hlen == hay@.len(),
            nlen == needle@.len(),
            nlen <= hlen,
            i <= hlen - nlen + 1,
            forall|k: int|
                0 <= k < i ==> !(#[trigger] hay@.subrange(k, k + needle@.len() as int)
                    =~= needle@),
        decreases hlen - i,
    {
        if matches_at(hay, hlen, i, needle, nlen) {
            return true;
        }
        i = i + 1;
    }
    false
}

/// `s` begins with `pre`.
pub open spec fn spec_starts_with(s: Seq<char>, pre: Seq<char>) -> bool {
    s.len() >= pre.len() && s.take(pre.len() as int) == pre
}

/// Prefix test, specified against `spec_starts_with`.
pub fn starts_with(s: &str, pre: &str) -> (r: bool)
    ensures
        r == spec_starts_with(s@, pre@),
{
    let slen = s.unicode_len();
    let plen = pre.unicode_len();
    if plen > slen {
        return false;
    }
    let m = matches_at(s, slen, 0, pre, plen);
    proof {
        if m {
            assert(s@.subrange(0, plen as int) =~= s@.take(plen as int));
        } else {
            assert(s@.subrange(0, plen as int) =~= s@.take(plen as int));
        }
    }
    m
}

fn matches_at_insensitive(hay: &str, hlen: usize, i: usize, needle: &str, nlen: usize) -> (r: bool)
    requires
        hlen == hay@.len(),
        nlen == needle@.len(),
        i + nlen <= hlen,
    ensures
        r == (spec_lower(hay@).subrange(i as int, i as int + nlen as int) =~= spec_lower(needle@)),
{
    let mut j: usize = 0;
    while j < nlen
        invariant
            hlen == hay@.len(),
            nlen == needle@.len(),
            i + nlen <= hlen,
            j <= nlen,
            forall|k: int| 0 <= k < j ==> spec_char_lower(hay@[i + k]) == spec_char_lower(
                needle@[k],
            ),
        decreases nlen - j,
    {
        if char_lower(hay.get_char(i + j)) != char_lower(needle.get_char(j)) {
            proof {
                assert(spec_lower(hay@).subrange(i as int, i as int + nlen as int)[j as int]
                    == spec_char_lower(hay@[i as int + j]));
                assert(spec_lower(needle@)[j as int] == spec_char_lower(needle@[j as int]));
            }
            return false;
        }
        j = j + 1;
    }
    proof {
        assert forall|k: int|
            0 <= k < nlen implies #[trigger] spec_lower(hay@).subrange(
            i as int,
            i as int + nlen as int,
        )[k] == spec_lower(needle@)[k] by {
            assert(spec_lower(hay@)[i + k] == spec_char_lower(hay@[i + k]));
            assert(spec_lower(needle@)[k] == spec_char_lower(needle@[k]));
        }
        assert(spec_lower(hay@).subrange(i as int, i as int + nlen as int) =~= spec_lower(
            needle@,
        ));
    }
    true
}

/// Case-insensitive (ASCII) substring search.
pub fn contains_insensitive(hay: &str, needle: &str) -> (r: bool)
    ensures
        r == spec_contains_seq(spec_lower(hay@), spec_lower(needle@)),
{
    let hlen = hay.unicode_len();
    let nlen = needle.unicode_len();
    if nlen > hlen {
        return false;
    }
    let mut i: usize = 0;
    while i <= hlen - nlen
        invariant
            hlen == hay@.len(),
            nlen == needle@.len(),
            nlen <= hlen,
            i <= hlen - nlen + 1,
            forall|k: int|
                0 <= k < i ==> !(#[trigger] spec_lower(hay@).subrange(
                    k,
                    k + spec_lower(needle@).len() as int,
                ) =~= spec_lower(needle@)),
        decreases hlen - i,
    {
        if matches_at_insensitive(hay, hlen, i, needle, nlen) {
            return true;
        }
        i = i + 1;
    }
    false
}

/// Lexicographic "strictly less" over character sequences, by code point.
pub open spec fn spec_lex_lt(a: Seq<char>, b: Seq<char>) -> bool
    decreases a.len(),
{
    if b.len() == 0 {
        false
    } else if a.len() == 0 {
        true
    } else if a[0] != b[0] {
        (a[0] as u32) < (b[0] as u32)
    } else {
        spec_lex_lt(a.drop_first(), b.drop_first())
    }
}

/// Three-way comparison result.
#[derive(Debug, Clone, Copy, PartialEq, Eq, Structural)]
pub enum CmpRes {
    Lt,
    Eq,
    Gt,
}

/// Lexicographic three-way comparison of two strings, by code point.
pub fn str_cmp(a: &str, b: &str) -> (r: CmpRes)
    ensures
        r == CmpRes::Lt <==> spec_lex_lt(a@, b@),
        r == CmpRes::Eq <==> a@ == b@,
        r == CmpRes::Gt <==> spec_lex_lt(b@, a@),
    decreases a@.len(),
{
    let alen = a.unicode_len();
    let blen = b.unicode_len();
    if blen == 0 && alen == 0 {
        proof {
            assert(a@ =~= b@);
        }
        CmpRes::Eq
    } else if blen == 0 {
        CmpRes::Gt
    } else if alen == 0 {
        CmpRes::Lt
    } else {
        let ca = a.get_char(0);
        let cb = b.get_char(0);
        if (ca as u32) < (cb as u32) {
            proof {
                assert(a@[0] != b@[0]);
            }
            CmpRes::Lt
        } else if (ca as u32) > (cb as u32) {
            proof {
                assert(a@[0] != b@[0]);
            }
            CmpRes::Gt
        } else {
            proof {
                assert(ca == cb) by {
                    assert(ca as u32 == cb as u32);
                    assert(ca as u32 as char == ca);
                    assert(cb as u32 as char == cb);
                }
            }
            let ta = a.substring_char(1, alen);
            let tb = b.substring_char(1, blen);
            let r = str_cmp(ta, tb);
            proof {
                assert(ta@ =~= a@.drop_first());
                assert(tb@ =~= b@.drop_first());
                if r == CmpRes::Eq {
                    assert forall|k: int| 0 <= k < a@.len() implies a@[k] == b@[k] by {
                        if k > 0 {
                            assert(a@.drop_first()[k - 1] == a@[k]);
                            assert(b@.drop_first()[k - 1] == b@[k]);
                        }
                    }
                    assert(a@ =~= b@);
                }
                if a@ == b@ {
                    assert(a@.drop_first() =~= b@.drop_first());
                }
            }
            r
        }
    }
}

/// The value of a run of decimal digits (most significant first).
pub open spec fn spec_digits_val(s: Seq<char>) -> nat
    decreases s.len(),
{
    if s.len() == 0 {
        0
    } else {
        spec_digits_val(s.drop_last()) * 10 + (if '0' <= s.last() && s.last() <= '9' {
            (s.last() as u32 - '0' as u32) as nat
        } else {
            0
        })
    }
}

pub open spec fn is_digit(c: char) -> bool {
    '0' <= c && c <= '9'
}

pub open spec fn all_digits(s: Seq<char>) -> bool {
    forall|i: int| 0 <= i < s.len() ==> is_digit(s[i])
}

proof fn lemma_digits_val_monotone(s: Seq<char>, i: int)
    requires
        0 <= i <= s.len(),
    ensures
        spec_digits_val(s) >= spec_digits_val(s.take(i)),
    decreases s.len() - i,
{
    if i < s.len() {
        lemma_digits_val_monotone(s, i + 1);
        assert(s.take(i + 1).drop_last() =~= s.take(i));
        assert(spec_digits_val(s.take(i + 1)) >= spec_digits_val(s.take(i)));
    } else {
        assert(s.take(i) =~= s);
    }
}

/// The character of one decimal digit.
pub open spec fn spec_digit_char(d: nat) -> char {
    if d == 0 {
        '0'
    } else if d == 1 {
        '1'
    } else if d == 2 {
        '2'
    } else if d == 3 {
        '3'
    } else if d == 4 {
        '4'
    } else if d == 5 {
        '5'
    } else if d == 6 {
        '6'
    } else if d == 7 {
        '7'
    } else if d == 8 {
        '8'
    } else {
        '9'
    }
}

/// The decimal rendering of a number, most significant digit first.
pub open spec fn spec_u64_dec(n: nat) -> Seq<char>
    decreases n,
{
    if n < 10 {
        seq![spec_digit_char(n)]
    } else {
        spec_u64_dec(n / 10).push(spec_digit_char(n % 10))
    }
}

fn digit_str(d: u64) -> (r: &'static str)
    requires
        d < 10,
    ensures
        r@ == seq![spec_digit_char(d as nat)],
{
    proof {
        reveal_strlit("0");
        reveal_strlit("1");
        reveal_strlit("2");
        reveal_strlit("3");
        reveal_strlit("4");
        reveal_strlit("5");
        reveal_strlit("6");
        reveal_strlit("7");
        reveal_strlit("8");
        reveal_strlit("9");
    }
    let r: &'static str = if d == 0 {
        "0"
    } else if d == 1 {
        "1"
    } else if d == 2 {
        "2"
    } else if d == 3 {
        "3"
    } else if d == 4 {
        "4"
    } else if d == 5 {
        "5"
    } else if d == 6 {
        "6"
    } else if d == 7 {
        "7"
    } else if d == 8 {
        "8"
    } else {
        "9"
    };
    proof {
        assert(r@ =~= seq![spec_digit_char(d as nat)]);
    }
    r
}

/// Renders a number in decimal.
pub fn u64_to_string(n: u64) -> (s: String)
    ensures
        s@ == spec_u64_dec(n as nat),
    decreases n,
{
    if n < 10 {
        digit_str(n).to_owned()
    } else {
        let mut s = u64_to_string(n / 10);
        s.append(digit_str(n % 10));
        proof {
            assert(s@ =~= spec_u64_dec(n as nat));
        }
        s
    }
}

/// A value held in tenths, rendered with one decimal place.
pub open spec fn spec_dec1(scaled: nat) -> Seq<char> {
    spec_u64_dec(scaled / 10) + seq!['.'] + seq![spec_digit_char(scaled % 10)]
}

/// A value held in hundredths, rendered with two decimal places.
pub open spec fn spec_dec2(scaled: nat) -> Seq<char> {
    spec_u64_dec(scaled / 100) + seq!['.'] + seq![spec_digit_char((scaled % 100) / 10)] + seq![
        spec_digit_char(scaled % 10),
    ]
}

/// Renders a tenths value with one decimal place.
pub fn dec1_string(scaled: u64) -> (s: String)
    ensures
        s@ == spec_dec1(scaled as nat),
{
    let mut s = u64_to_string(scaled / 10);
    s.append(".");
    s.append(digit_str(scaled % 10));
    proof {
        reveal_strlit(".");
        assert(s@ =~= spec_dec1(scaled as nat));
    }
    s
}

/// Renders a hundredths value with two decimal places.
pub fn dec2_string(scaled: u64) -> (s: String)
    ensures
        s@ == spec_dec2(scaled as nat),
{
    let mut s = u64_to_string(scaled / 100);
    s.append(".");
    s.append(digit_str((scaled % 100) / 10));
    s.append(digit_str(scaled % 10));
    proof {
        reveal_strlit(".");
        assert(s@ =~= spec_dec2(scaled as nat));
    }
    s
}

/// Splitting at a separator character, as `str::split` does: one segment more
/// than there are separators, and empty segments are kept.
pub open spec fn spec_split(s: Seq<char>, sep: char) -> Seq<Seq<char>>
    decreases s.len(),
{
    if s.len() == 0 {
        seq![Seq::<char>::empty()]
    } else if s.last() == sep {
        spec_split(s.drop_last(), sep).push(Seq::<char>::empty())
    } else {
        let r = spec_split(s.drop_last(), sep);
        r.update(r.len() - 1, r.last().push(s.last()))
    }
}

/// Splits a string at a separator character.
pub fn split_char(s: &str, sep: char) -> (parts: Vec<String>)
    ensures
        parts@.map_values(|p: String| p@) == spec_split(s@, sep),
{
    let len = s.unicode_len();
    let mut parts: Vec<String> = Vec::new();
    let mut start: usize = 0;
    let mut i: usize = 0;
    proof {
        assert(s@.take(0) =~= Seq::<char>::empty());
        assert(spec_split(s@.take(0), sep) =~~= parts@.map_values(|p: String| p@).push(
            s@.subrange(0, 0),
        ));
    }
    while i < len
        invariant
            len == s@.len(),
            start <= i <= len,
            spec_split(s@.take(i as int), sep) == parts@.map_values(|p: String| p@).push(
                s@.subrange(start as int, i as int),
            ),
        decreases len - i,
    {
        let ghost pvs = parts@.map_values(|p: String| p@);
        let ghost cur = s@.subrange(start as int, i as int);
        proof {
            assert(s@.take(i as int + 1).drop_last() =~= s@.take(i as int));
            assert(s@.take(i as int + 1).last() == s@[i as int]);
        }
        if s.get_char(i) == sep {
            let piece = s.substring_char(start, i).to_owned();
            parts.push(piece);
            proof {
                assert(parts@.map_values(|p: String| p@) =~= pvs.push(cur));
                assert(spec_split(s@.take(i as int + 1), sep) =~~= parts@.map_values(
                    |p: String| p@,
                ).push(s@.subrange(i as int + 1, i as int + 1)));
            }
            start = i + 1;
        } else {
            proof {
                let r = spec_split(s@.take(i as int), sep);
                assert(r.last() == cur);
                assert(cur.push(s@[i as int]) =~= s@.subrange(start as int, i as int + 1));
                assert(r.update(r.len() - 1, cur.push(s@[i as int])) =~= pvs.push(
                    s@.subrange(start as int, i as int + 1),
                ));
            }
        }
        i = i + 1;
    }
    let ghost pvs = parts@.map_values(|p: String| p@);
    let piece = s.substring_char(start, len).to_owned();
    parts.push(piece);
    proof {
        assert(s@.take(len as int) =~= s@);
        assert(parts@.map_values(|p: String| p@) =~= pvs.push(s@.subrange(start as int, len as int)));
    }
    parts
}

/// Joining with a separator: the inverse direction of `spec_split`.
pub open spec fn spec_join(parts: Seq<Seq<char>>, sep: Seq<char>) -> Seq<char>
    decreases parts.len(),
{
    if parts.len() == 0 {
        Seq::empty()
    } else if parts.len() == 1 {
        parts[0]
    } else {
        spec_join(parts.drop_last(), sep) + sep + parts.last()
    }
}

/// Joins strings with a separator.
pub fn join_strings(parts: &Vec<String>, sep: &str) -> (r: String)
    ensures
        r@ == spec_join(parts@.map_values(|p: String| p@), sep@),
{
    let ghost pvs = parts@.map_values(|p: String| p@);
    let mut out = String::new();
    let mut i: usize = 0;
    while i < parts.len()
        invariant
            pvs == parts@.map_values(|p: String| p@),
            i <= parts@.len(),
            out@ == spec_join(pvs.take(i as int), sep@),
        decreases parts@.len() - i,
    {
        proof {
            assert(pvs.take(i as int + 1).drop_last() =~= pvs.take(i as int));
            assert(pvs.take(i as int + 1).last() == parts@[i as int]@);
        }
        if i > 0 {
            out.append(sep);
        }
        out.append(parts[i].as_str());
        i = i + 1;
    }
    proof {
        assert(pvs.take(parts@.len() as int) =~= pvs);
    }
    out
}

/// First index where `c` occurs, or the length when it does not.
pub open spec fn first_pos(s: Seq<char>, c: char) -> int
    decreases s.len(),
{
    if s.len() == 0 {
        0
    } else if s[0] == c {
        0
    } else {
        1 + first_pos(s.drop_first(), c)
    }
}

pub proof fn lemma_first_pos(s: Seq<char>, c: char)
    ensures
        0 <= first_pos(s, c) <= s.len(),
        first_pos(s, c) < s.len() ==> s[first_pos(s, c)] == c,
        forall|j: int| 0 <= j < first_pos(s, c) ==> s[j] != c,
    decreases s.len(),
{
    if s.len() > 0 && s[0] != c {
        lemma_first_pos(s.drop_first(), c);
        assert forall|j: int| 0 <= j < first_pos(s, c) implies s[j] != c by {
            if j > 0 {
                assert(s.drop_first()[j - 1] == s[j]);
            }
        }
    }
}

proof fn lemma_first_pos_unique(s: Seq<char>, c: char, i: int)
    requires
        0 <= i <= s.len(),
        forall|j: int| 0 <= j < i ==> s[j] != c,
        i < s.len() ==> s[i] == c,
    ensures
        first_pos(s, c) == i,
    decreases s.len(),
{
    if s.len() > 0 && s[0] != c {
        assert(i > 0);
        assert forall|j: int| 0 <= j < i - 1 implies s.drop_first()[j] != c by {
            assert(s.drop_first()[j] == s[j + 1]);
        }
        assert(i - 1 < s.drop_first().len() ==> s.drop_first()[i - 1] == c);
        lemma_first_pos_unique(s.drop_first(), c, i - 1);
    }
}

/// Finds the first occurrence of a character; the length means "absent".
pub fn find_char(s: &str, c: char) -> (r: usize)
    ensures
        r == first_pos(s@, c),
{
    let len = s.unicode_len();
    let mut i: usize = 0;
    while i < len
        invariant
            len == s@.len(),
            i <= len,
            forall|j: int| 0 <= j < i ==> s@[j] != c,
        decreases len - i,
    {
        if s.get_char(i) == c {
            proof {
                lemma_first_pos_unique(s@, c, i as int);
            }
            return i;
        }
        i = i + 1;
    }
    proof {
        lemma_first_pos_unique(s@, c, len as int);
    }
    len
}

/// Last index where `c` occurs, or `-1` when it does not.
pub open spec fn last_pos(s: Seq<char>, c: char) -> int
    decreases s.len(),
{
    if s.len() == 0 {
        -1
    } else if s.last() == c {
        s.len() - 1
    } else {
        last_pos(s.drop_last(), c)
    }
}

proof fn lemma_last_pos_unique(s: Seq<char>, c: char, i: int)
    requires
        -1 <= i < s.len(),
        forall|j: int| i < j < s.len() ==> s[j] != c,
        i >= 0 ==> s[i] == c,
    ensures
        last_pos(s, c) == i,
    decreases s.len(),
{
    if s.len() > 0 && s.last() != c {
        assert(i < s.len() - 1);
        assert forall|j: int| i < j < s.drop_last().len() implies s.drop_last()[j] != c by {
            assert(s.drop_last()[j] == s[j]);
        }
        lemma_last_pos_unique(s.drop_last(), c, i);
    }
}

/// Finds the last occurrence of a character; `None` when absent.
pub fn rfind_char(s: &str, c: char) -> (r: Option<usize>)
    ensures
        match r {
            Some(i) => i == last_pos(s@, c),
            None => last_pos(s@, c) == -1,
        },
{
    let len = s.unicode_len();
    let mut i: usize = len;
    while i > 0
        invariant
            len == s@.len(),
            i <= len,
            forall|j: int| i <= j < len ==> s@[j] != c,
        decreases i,
    {
        i = i - 1;
        if s.get_char(i) == c {
            proof {
                lemma_last_pos_unique(s@, c, i as int);
            }
            return Some(i);
        }
    }
    proof {
        lemma_last_pos_unique(s@, c, -1);
    }
    None
}

pub proof fn lemma_lex_lt_trans(a: Seq<char>, b: Seq<char>, c: Seq<char>)
    requires
        spec_lex_lt(a, b),
        spec_lex_lt(b, c),
    ensures
        spec_lex_lt(a, c),
    decreases a.len() + b.len() + c.len(),
{
    if a.len() > 0 && b.len() > 0 && c.len() > 0 {
        if a[0] == b[0] && b[0] == c[0] {
            lemma_lex_lt_trans(a.drop_first(), b.drop_first(), c.drop_first());
        }
    }
}

/// The views of a sequence of strings.
pub open spec fn views(ps: Seq<String>) -> Seq<Seq<char>> {
    ps.map_values(|p: String| p@)
}

/// Lexicographic "strictly less" as an executable test.
pub fn str_lt(a: &str, b: &str) -> (r: bool)
    ensures
        r == spec_lex_lt(a@, b@),
{
    let cr = str_cmp(a, b);
    cr == CmpRes::Lt
}

/// Lexicographic "less or equal".
pub open spec fn spec_lex_le(a: Seq<char>, b: Seq<char>) -> bool {
    spec_lex_lt(a, b) || a == b
}

pub proof fn lemma_lex_total(a: Seq<char>, b: Seq<char>)
    ensures
        spec_lex_lt(a, b) || a == b || spec_lex_lt(b, a),
    decreases a.len() + b.len(),
{
    if a.len() > 0 && b.len() > 0 {
        if a[0] == b[0] {
            lemma_lex_total(a.drop_first(), b.drop_first());
            if a.drop_first() == b.drop_first() {
                assert(a.drop_first().len() == a.len() - 1);
                assert(b.drop_first().len() == b.len() - 1);
                assert(a.len() == b.len());
                assert forall|k: int| 0 <= k < a.len() implies a[k] == b[k] by {
                    if k > 0 {
                        assert(a.drop_first()[k - 1] == a[k]);
                        assert(b.drop_first()[k - 1] == b[k]);
                    }
                }
                assert(a =~= b);
            }
        } else {
            assert(a[0] as u32 != b[0] as u32) by {
                vstd::utf8::char_u32_cast(a[0], a[0] as u32);
                vstd::utf8::char_u32_cast(b[0], b[0] as u32);
            }
        }
    } else if a.len() == 0 && b.len() == 0 {
        assert(a =~= b);
    }
}

pub proof fn lemma_lex_lt_asym(a: Seq<char>, b: Seq<char>)
    requires
        spec_lex_lt(a, b),
    ensures
        !spec_lex_lt(b, a),
        a != b,
    decreases a.len() + b.len(),
{
    if a.len() > 0 && b.len() > 0 && a[0] == b[0] {
        lemma_lex_lt_asym(a.drop_first(), b.drop_first());
        assert(a != b) by {
            if a == b {
                assert(a.drop_first() =~= b.drop_first());
            }
        }
    } else {
        if a.len() == 0 {
            assert(b.len() > 0);
            assert(a != b);
        }
    }
}

pub proof fn lemma_lex_le_trans(a: Seq<char>, b: Seq<char>, c: Seq<char>)
    requires
        spec_lex_le(a, b),
        spec_lex_le(b, c),
    ensures
        spec_lex_le(a, c),
{
    if spec_lex_lt(a, b) && spec_lex_lt(b, c) {
        lemma_lex_lt_trans(a, b, c);
    }
}

/// Lexicographic "less or equal" as an executable test.
pub fn str_le(a: &str, b: &str) -> (r: bool)
    ensures
        r == spec_lex_le(a@, b@),
{
    let cr = str_cmp(a, b);
    proof {
        if cr == CmpRes::Gt {
            lemma_lex_lt_asym(b@, a@);
        }
    }
    cr == CmpRes::Lt || cr == CmpRes::Eq
}

/// Strictly increasing (hence duplicate-free) in lexicographic order.
pub open spec fn spec_sorted_strict(ps: Seq<Seq<char>>) -> bool {
    forall|i: int, j: int| 0 <= i < j < ps.len() ==> spec_lex_lt(ps[i], ps[j])
}

/// Inserts into a strictly sorted vector, keeping it sorted and dropping the
/// value when it is already present: the result holds the old set plus `x`.
pub fn insert_sorted_unique(v: &mut Vec<String>, x: String)
    requires
        spec_sorted_strict(old(v)@.map_values(|p: String| p@)),
    ensures
        spec_sorted_strict(final(v)@.map_values(|p: String| p@)),
        forall|y: Seq<char>|
            #[trigger] views(final(v)@).contains(y) <==> (views(old(v)@).contains(y) || y == x@),
{
    let ghost vs0 = v@.map_values(|p: String| p@);
    let n = v.len();
    let mut i: usize = 0;
    while i < n && str_lt(v[i].as_str(), x.as_str())
        invariant
            n == v@.len(),
            vs0 == v@.map_values(|p: String| p@),
            i <= n,
            forall|j: int| 0 <= j < i ==> spec_lex_lt(vs0[j], x@),
        decreases n - i,
    {
        i = i + 1;
    }
    if i < n && str_cmp(v[i].as_str(), x.as_str()) == CmpRes::Eq {
        proof {
            assert(vs0[i as int] == x@);
            assert(vs0.contains(x@));
        }
        return ;
    }
    proof {
        if i < n {
            assert(spec_lex_lt(x@, vs0[i as int]));
        }
    }
    v.insert(i, x);
    proof {
        let vs1 = v@.map_values(|p: String| p@);
        assert(vs1 =~= vs0.insert(i as int, x@));
        assert forall|a: int, b: int| 0 <= a < b < vs1.len() implies spec_lex_lt(
            vs1[a],
            vs1[b],
        ) by {
            let a0 = if a < i {
                a
            } else {
                a - 1
            };
            let b0 = if b < i {
                b
            } else {
                b - 1
            };
            if a == i {
                // vs1[a] == x@, b > i
                assert(vs1[b] == vs0[b - 1]);
                assert(spec_lex_lt(x@, vs0[i as int]));
                if b - 1 > i {
                    lemma_lex_lt_trans(x@, vs0[i as int], vs0[b - 1]);
                }
            } else if b == i {
                assert(vs1[a] == vs0[a]);
                assert(spec_lex_lt(vs0[a], x@));
            } else {
                assert(vs1[a] == vs0[a0]);
                assert(vs1[b] == vs0[b0]);
                if a < i && b > i {
                    if a0 < b0 {
                    } else {
                        assert(a0 == b0);
                        assert(spec_lex_lt(vs0[a0], x@));
                        assert(spec_lex_lt(x@, vs0[i as int]));
                    }
                }
            }
        }
        assert forall|y: Seq<char>| vs1.contains(y) <==> (vs0.contains(y) || y == x@) by {
            if vs1.contains(y) {
                let k = choose|k: int| 0 <= k < vs1.len() && vs1[k] == y;
                if k < i {
                    assert(vs0[k] == y);
                } else if k == i {
                } else {
                    assert(vs0[k - 1] == y);
                }
            }
            if vs0.contains(y) {
                let k = choose|k: int| 0 <= k < vs0.len() && vs0[k] == y;
                if k < i {
                    assert(vs1[k] == y);
                } else {
                    assert(vs1[k + 1] == y);
                }
            }
            if y == x@ {
                assert(vs1[i as int] == y);
            }
        }
    }
}

/// Reads a digit run as a number, saturating at `u64::MAX`.
pub fn digits_to_u64(s: &str, from: usize, to: usize) -> (r: u64)
    requires
        from <= to <= s@.len(),
    ensures
        r as nat == spec_digits_val(s@.subrange(from as int, to as int)) || (r == u64::MAX
            && spec_digits_val(s@.subrange(from as int, to as int)) > u64::MAX),
{
    let ghost whole = s@.subrange(from as int, to as int);
    let mut acc: u128 = 0;
    let mut i: usize = from;
    while i < to
        invariant
            from <= i <= to <= s@.len(),
            whole == s@.subrange(from as int, to as int),
            acc as nat == spec_digits_val(whole.take(i - from)),
            acc <= 0xFFFF_FFFF_FFFF_FFFFu128 * 10 + 9,
        decreases to - i,
    {
        proof {
            assert(whole.take(i - from + 1).drop_last() =~= whole.take(i - from));
            assert(whole.take(i - from + 1).last() == s@[i as int]);
        }
        if acc > 0xFFFF_FFFF_FFFF_FFFFu128 {
            proof {
                lemma_digits_val_monotone(whole, i - from);
            }
            return u64::MAX;
        }
        let c = s.get_char(i);
        let d: u128 = if '0' <= c && c <= '9' {
            (c as u32 - '0' as u32) as u128
        } else {
            0
        };
        acc = acc * 10 + d;
        i = i + 1;
    }
    proof {
        assert(whole.take(to - from) =~= whole);
    }
    if acc > 0xFFFF_FFFF_FFFF_FFFFu128 {
        u64::MAX
    } else {
        acc as u64
    }
}

} // verus!
