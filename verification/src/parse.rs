//! CLI-output parsing on plain values: port-string normalization, size-string
//! parsing, container status normalization, and the small text parsers for
//! container creation input.

use vstd::prelude::*;
use vstd::string::StrSliceExecFns;
use vstd::string::StringExecFns;

use crate::strutil::first_pos;
use crate::strutil::last_pos;
use crate::strutil::spec_split;
use crate::strutil::spec_trim;
use crate::strutil::spec_join;
use crate::strutil::spec_sorted_strict;
use crate::strutil::all_digits;
use crate::strutil::is_digit;
use crate::strutil::views;
use crate::strutil::trim;
use crate::strutil::find_char;
use crate::strutil::rfind_char;
use crate::strutil::split_char;
use crate::strutil::join_strings;
use crate::strutil::insert_sorted_unique;
use crate::strutil::lemma_first_pos;
use crate::strutil::digits_to_u64;
use crate::strutil::str_eq_insensitive;
use crate::strutil::spec_lower;
use crate::strutil::spec_contains_seq;
use crate::strutil::contains_insensitive;

verus! {

/// First index where the two-character arrow `->` starts, or the length of
/// the string when it does not occur.
pub open spec fn arrow_pos(s: Seq<char>) -> int
    decreases s.len(),
{
    if s.len() < 2 {
        s.len() as int
    } else if s[0] == '-' && s[1] == '>' {
        0
    } else {
        1 + arrow_pos(s.drop_first())
    }
}

proof fn lemma_arrow_pos_unique(s: Seq<char>, i: int)
    requires
        0 <= i <= s.len(),
        forall|j: int| 0 <= j < i && j + 2 <= s.len() ==> !(#[trigger] s[j] == '-' && s[j + 1] == '>'),
        i + 2 <= s.len() ==> (s[i] == '-' && s[i + 1] == '>'),
        i + 2 > s.len() ==> i == s.len(),
    ensures
        arrow_pos(s) == i,
    decreases s.len(),
{
    if s.len() < 2 {
    } else if s[0] == '-' && s[1] == '>' {
        assert(i == 0);
    } else {
        assert(i > 0);
        assert forall|j: int|
            0 <= j < i - 1 && j + 2 <= s.drop_first().len() implies !(#[trigger] s.drop_first()[j]
            == '-' && s.drop_first()[j + 1] == '>') by {
            assert(s.drop_first()[j] == s[j + 1]);
            assert(s.drop_first()[j + 1] == s[j + 2]);
        }
        if i - 1 + 2 <= s.drop_first().len() {
            assert(s.drop_first()[i - 1] == s[i]);
            assert(s.drop_first()[i] == s[i + 1]);
        }
        lemma_arrow_pos_unique(s.drop_first(), i - 1);
    }
}

/// Finds the first `->`; the string length means "absent".
fn find_arrow(s: &str) -> (r: usize)
    ensures
        r == arrow_pos(s@),
{
    let len = s.unicode_len();
    if len < 2 {
        proof {
            lemma_arrow_pos_unique(s@, len as int);
        }
        return len;
    }
    let mut i: usize = 0;
    while i <= len - 2
        invariant
            len == s@.len(),
            len >= 2,
            i <= len,
            forall|j: int| 0 <= j < i && j + 2 <= len ==> !(#[trigger] s@[j] == '-' && s@[j + 1] == '>'),
        decreases len - i,
    {
        if s.get_char(i) == '-' && s.get_char(i + 1) == '>' {
            proof {
                lemma_arrow_pos_unique(s@, i as int);
            }
            return i;
        }
        i = i + 1;
    }
    proof {
        lemma_arrow_pos_unique(s@, len as int);
    }
    len
}

/// Normalization of one comma-separated port entry: the protocol suffix is
/// cut, an arrow mapping becomes `host:container` with the host IP stripped,
/// a plain `host:container` pair is kept, a bare port number maps to itself,
/// and anything else is dropped.
pub open spec fn spec_norm_port(seg: Seq<char>) -> Option<Seq<char>> {
    let t = spec_trim(seg);
    let w = t.take(first_pos(t, '/'));
    let a = arrow_pos(w);
    if a + 2 <= w.len() {
        let host = w.take(a);
        let cont = w.skip(a + 2);
        let hp = host.skip(last_pos(host, ':') + 1);
        Some(hp + seq![':'] + cont)
    } else if first_pos(w, ':') < w.len() && first_pos(w, '.') == w.len() {
        Some(w)
    } else if w.len() > 0 && all_digits(w) {
        Some(w + seq![':'] + w)
    } else {
        None
    }
}

fn is_all_digits(s: &str) -> (r: bool)
    ensures
        r == all_digits(s@),
{
    let len = s.unicode_len();
    let mut i: usize = 0;
    while i < len
        invariant
            len == s@.len(),
            i <= len,
            forall|j: int| 0 <= j < i ==> is_digit(s@[j]),
        decreases len - i,
    {
        let c = s.get_char(i);
        if !('0' <= c && c <= '9') {
            return false;
        }
        i = i + 1;
    }
    true
}

/// Normalizes one port entry, per `spec_norm_port`.
pub fn norm_port(seg: &str) -> (r: Option<String>)
    ensures
        match r {
            Some(p) => spec_norm_port(seg@) == Some(p@),
            None => spec_norm_port(seg@) == None::<Seq<char>>,
        },
{
    let t = trim(seg);
    let tlen = t.unicode_len();
    let slash = find_char(t, '/');
    proof {
        lemma_first_pos(t@, '/');
    }
    let w = t.substring_char(0, slash);
    proof {
        assert(w@ =~= t@.take(first_pos(t@, '/')));
    }
    let wlen = w.unicode_len();
    let a = find_arrow(w);
    proof {
        lemma_arrow_pos_check(w@);
    }
    if wlen >= 2 && a <= wlen - 2 {
        let host = w.substring_char(0, a);
        let cont = w.substring_char(a + 2, wlen);
        proof {
            lemma_last_pos_bounds(host@, ':');
        }
        let hp_start: usize = match rfind_char(host, ':') {
            Some(i) => i + 1,
            None => 0,
        };
        let hp = host.substring_char(hp_start, a);
        let mut out = hp.to_owned();
        out.append(":");
        out.append(cont);
        proof {
            reveal_strlit(":");
            assert(":"@ =~= seq![':']);
            assert(host@ =~= w@.take(a as int));
            assert(hp@ =~= host@.skip(last_pos(host@, ':') + 1));
            assert(cont@ =~= w@.skip(a as int + 2));
            assert(out@ == hp@ + seq![':'] + cont@);
        }
        Some(out)
    } else {
        let colon = find_char(w, ':');
        let dot = find_char(w, '.');
        if colon < wlen && dot == wlen {
            Some(w.to_owned())
        } else if wlen > 0 && is_all_digits(w) {
            let mut out = w.to_owned();
            out.append(":");
            out.append(w);
            proof {
                reveal_strlit(":");
                assert(":"@ =~= seq![':']);
                assert(out@ == w@ + seq![':'] + w@);
            }
            Some(out)
        } else {
            None
        }
    }
}

proof fn lemma_arrow_pos_check(s: Seq<char>)
    ensures
        0 <= arrow_pos(s) <= s.len(),
        arrow_pos(s) + 2 <= s.len() || arrow_pos(s) == s.len(),
    decreases s.len(),
{
    if s.len() >= 2 && !(s[0] == '-' && s[1] == '>') {
        lemma_arrow_pos_check(s.drop_first());
    }
}

proof fn lemma_last_pos_bounds(s: Seq<char>, c: char)
    ensures
        -1 <= last_pos(s, c) < s.len(),
    decreases s.len(),
{
    if s.len() > 0 && s.last() != c {
        lemma_last_pos_bounds(s.drop_last(), c);
    }
}

/// Splits a port string at commas, normalizes each entry, strips duplicates
/// and returns the surviving pairs in increasing lexicographic order.
pub fn normalize_ports(s: &str) -> (r: Vec<String>)
    ensures
        spec_sorted_strict(views(r@)),
        forall|y: Seq<char>|
            #[trigger] views(r@).contains(y) <==> (exists|j: int|
                0 <= j < spec_split(s@, ',').len() && spec_norm_port(
                    #[trigger] spec_split(s@, ',')[j],
                ) == Some(y)),
{
    let segs = split_char(s, ',');
    let ghost segv = spec_split(s@, ',');
    let mut acc: Vec<String> = Vec::new();
    let mut i: usize = 0;
    while i < segs.len()
        invariant
            views(segs@) == segv,
            segv == spec_split(s@, ','),
            i <= segs@.len(),
            spec_sorted_strict(views(acc@)),
            forall|y: Seq<char>|
                #[trigger] views(acc@).contains(y) <==> (exists|j: int|
                    0 <= j < i && spec_norm_port(#[trigger] segv[j]) == Some(y)),
        decreases segs@.len() - i,
    {
        let ghost accv0 = views(acc@);
        let np = norm_port(segs[i].as_str());
        proof {
            assert(segs@[i as int]@ == segv[i as int]);
        }
        match np {
            Some(p) => {
                let ghost pv = p@;
                insert_sorted_unique(&mut acc, p);
                proof {
                    assert forall|y: Seq<char>| #[trigger] views(acc@).contains(y) implies (
                    exists|j: int|
                        0 <= j < i + 1 && spec_norm_port(#[trigger] segv[j]) == Some(y)) by {
                        if accv0.contains(y) {
                            let j = choose|j: int|
                                0 <= j < i && spec_norm_port(#[trigger] segv[j]) == Some(y);
                            assert(spec_norm_port(segv[j]) == Some(y));
                        } else {
                            assert(y == pv);
                            assert(spec_norm_port(segv[i as int]) == Some(y));
                        }
                    }
                    assert forall|y: Seq<char>|
                        (exists|j: int|
                            0 <= j < i + 1 && spec_norm_port(#[trigger] segv[j]) == Some(
                                y,
                            )) implies #[trigger] views(acc@).contains(y) by {
                        let j = choose|j: int|
                            0 <= j < i + 1 && spec_norm_port(#[trigger] segv[j]) == Some(y);
                        if j < i {
                            assert(accv0.contains(y));
                        } else {
                            assert(y == pv);
                        }
                    }
                }
            },
            None => {
                proof {
                    assert forall|y: Seq<char>|
                        (exists|j: int|
                            0 <= j < i + 1 && spec_norm_port(#[trigger] segv[j]) == Some(
                                y,
                            )) implies #[trigger] views(acc@).contains(y) by {
                        let j = choose|j: int|
                            0 <= j < i + 1 && spec_norm_port(#[trigger] segv[j]) == Some(y);
                        assert(j < i);
                    }
                }
            },
        }
        i = i + 1;
    }
    acc
}

/// Renders the normalized port list for display: the entries joined with
/// `", "`, or the placeholder when nothing survives normalization.
pub fn extract_ports_only(ports_str: &str) -> (r: String)
    ensures
        exists|ps: Seq<Seq<char>>|
            {
                &&& #[trigger] spec_sorted_strict(ps)
                &&& (forall|y: Seq<char>|
                    #[trigger] ps.contains(y) <==> (exists|j: int|
                        0 <= j < spec_split(ports_str@, ',').len() && spec_norm_port(
                            #[trigger] spec_split(ports_str@, ',')[j],
                        ) == Some(y)))
                &&& r@ == if ps.len() == 0 {
                    "Nenhuma"@
                } else {
                    spec_join(ps, ", "@)
                }
            },
{
    let parts = normalize_ports(ports_str);
    let ghost ps = views(parts@);
    if parts.len() == 0 {
        let r = "Nenhuma".to_owned();
        proof {
            assert(ps.len() == 0);
        }
        r
    } else {
        let r = join_strings(&parts, ", ");
        r
    }
}

/// A character that may appear in the numeric part of a size string.
pub open spec fn is_numch(c: char) -> bool {
    is_digit(c) || c == '.'
}

/// Length of the longest numeric prefix (digits and dots).
pub open spec fn num_prefix_len(s: Seq<char>) -> int
    decreases s.len(),
{
    if s.len() > 0 && is_numch(s[0]) {
        1 + num_prefix_len(s.drop_first())
    } else {
        0
    }
}

proof fn lemma_num_prefix_unique(s: Seq<char>, i: int)
    requires
        0 <= i <= s.len(),
        forall|j: int| 0 <= j < i ==> is_numch(s[j]),
        i < s.len() ==> !is_numch(s[i]),
    ensures
        num_prefix_len(s) == i,
    decreases s.len(),
{
    if s.len() > 0 && is_numch(s[0]) {
        assert(i > 0);
        assert forall|j: int| 0 <= j < i - 1 implies is_numch(s.drop_first()[j]) by {
            assert(s.drop_first()[j] == s[j + 1]);
        }
        if i - 1 < s.drop_first().len() {
            assert(s.drop_first()[i - 1] == s[i]);
        }
        lemma_num_prefix_unique(s.drop_first(), i - 1);
    }
}

/// Powers of ten.
pub open spec fn pow10(n: nat) -> nat
    decreases n,
{
    if n == 0 {
        1
    } else {
        10 * pow10((n - 1) as nat)
    }
}

proof fn lemma_pow10_le(a: nat, b: nat)
    requires
        a <= b,
    ensures
        pow10(a) <= pow10(b),
        pow10(a) >= 1,
    decreases b,
{
    if b > 0 {
        if a == b {
            lemma_pow10_le((a - 1) as nat, (b - 1) as nat);
        } else {
            lemma_pow10_le(a, (b - 1) as nat);
        }
    }
}

pub proof fn lemma_digits_val_bound(s: Seq<char>)
    ensures
        crate::strutil::spec_digits_val(s) < pow10(s.len()),
    decreases s.len(),
{
    if s.len() > 0 {
        lemma_digits_val_bound(s.drop_last());
    }
}

fn pow10_u64(n: usize) -> (r: u64)
    requires
        n <= 12,
    ensures
        r == pow10(n as nat),
{
    let mut r: u64 = 1;
    let mut i: usize = 0;
    while i < n
        invariant
            i <= n <= 12,
            r == pow10(i as nat),
        decreases n - i,
    {
        proof {
            lemma_pow10_le(i as nat, 11);
            assert(pow10(11) == 100_000_000_000) by {
                reveal_with_fuel(pow10, 13);
            }
        }
        r = r * 10;
        i = i + 1;
    }
    r
}

/// The byte multiplier of a (lowercased) size unit: binary multiples, with
/// or without the trailing `b`, and an unknown unit counting as plain bytes.
pub open spec fn spec_unit_mult(u: Seq<char>) -> u64 {
    if u.len() == 0 || u == seq!['b'] {
        1
    } else if u == seq!['k'] || u == seq!['k', 'b'] || u == seq!['k', 'i', 'b'] {
        1024
    } else if u == seq!['m'] || u == seq!['m', 'b'] || u == seq!['m', 'i', 'b'] {
        1048576
    } else if u == seq!['g'] || u == seq!['g', 'b'] || u == seq!['g', 'i', 'b'] {
        1073741824
    } else if u == seq!['t'] || u == seq!['t', 'b'] || u == seq!['t', 'i', 'b'] {
        1099511627776
    } else {
        1
    }
}

proof fn lemma_unit_literals()
    ensures
        spec_lower("b"@) == seq!['b'],
        spec_lower("k"@) == seq!['k'],
        spec_lower("kb"@) == seq!['k', 'b'],
        spec_lower("kib"@) == seq!['k', 'i', 'b'],
        spec_lower("m"@) == seq!['m'],
        spec_lower("mb"@) == seq!['m', 'b'],
        spec_lower("mib"@) == seq!['m', 'i', 'b'],
        spec_lower("g"@) == seq!['g'],
        spec_lower("gb"@) == seq!['g', 'b'],
        spec_lower("gib"@) == seq!['g', 'i', 'b'],
        spec_lower("t"@) == seq!['t'],
        spec_lower("tb"@) == seq!['t', 'b'],
        spec_lower("tib"@) == seq!['t', 'i', 'b'],
{
    reveal_strlit("b");
    reveal_strlit("k");
    reveal_strlit("kb");
    reveal_strlit("kib");
    reveal_strlit("m");
    reveal_strlit("mb");
    reveal_strlit("mib");
    reveal_strlit("g");
    reveal_strlit("gb");
    reveal_strlit("gib");
    reveal_strlit("t");
    reveal_strlit("tb");
    reveal_strlit("tib");
    assert(spec_lower("b"@) =~= seq!['b']);
    assert(spec_lower("k"@) =~= seq!['k']);
    assert(spec_lower("kb"@) =~= seq!['k', 'b']);
    assert(spec_lower("kib"@) =~= seq!['k', 'i', 'b']);
    assert(spec_lower("m"@) =~= seq!['m']);
    assert(spec_lower("mb"@) =~= seq!['m', 'b']);
    assert(spec_lower("mib"@) =~= seq!['m', 'i', 'b']);
    assert(spec_lower("g"@) =~= seq!['g']);
    assert(spec_lower("gb"@) =~= seq!['g', 'b']);
    assert(spec_lower("gib"@) =~= seq!['g', 'i', 'b']);
    assert(spec_lower("t"@) =~= seq!['t']);
    assert(spec_lower("tb"@) =~= seq!['t', 'b']);
    assert(spec_lower("tib"@) =~= seq!['t', 'i', 'b']);
}

fn unit_multiplier(u: &str) -> (m: u64)
    ensures
        m == spec_unit_mult(spec_lower(u@)),
{
    proof {
        lemma_unit_literals();
    }
    let len = u.unicode_len();
    if len == 0 {
        proof {
            assert(spec_lower(u@).len() == 0);
        }
        1
    } else if str_eq_insensitive(u, "b") {
        1
    } else if str_eq_insensitive(u, "k") || str_eq_insensitive(u, "kb") || str_eq_insensitive(
        u,
        "kib",
    ) {
        1024
    } else if str_eq_insensitive(u, "m") || str_eq_insensitive(u, "mb") || str_eq_insensitive(
        u,
        "mib",
    ) {
        1048576
    } else if str_eq_insensitive(u, "g") || str_eq_insensitive(u, "gb") || str_eq_insensitive(
        u,
        "gib",
    ) {
        1073741824
    } else if str_eq_insensitive(u, "t") || str_eq_insensitive(u, "tb") || str_eq_insensitive(
        u,
        "tib",
    ) {
        1099511627776
    } else {
        proof {
            assert(spec_lower(u@).len() == u@.len());
        }
        1
    }
}

/// The value of a human-readable size string in bytes: numeric part times the
/// binary unit multiplier, fractional digits (the first twelve count) scaled
/// exactly, unparseable numbers reading as zero, and the result saturating at
/// `u64::MAX`.
pub open spec fn spec_parse_size(s: Seq<char>) -> u64 {
    let t = spec_trim(s);
    let nl = num_prefix_len(t);
    let num = t.take(nl);
    let unit = spec_lower(spec_trim(t.skip(nl)));
    let mult = spec_unit_mult(unit) as nat;
    let dot = first_pos(num, '.');
    if num.len() == 0 || (dot < num.len() && (num.len() == 1 || first_pos(num.skip(dot + 1), '.')
        < num.len() - dot - 1)) {
        0
    } else {
        let intpart = num.take(dot);
        let frac = if dot < num.len() {
            num.skip(dot + 1)
        } else {
            Seq::<char>::empty()
        };
        let fl = if frac.len() > 12 {
            12int
        } else {
            frac.len() as int
        };
        let frac12 = frac.take(fl);
        let value = crate::strutil::spec_digits_val(intpart) * mult + (
        crate::strutil::spec_digits_val(frac12) * mult) / pow10(frac12.len());
        if value > u64::MAX {
            u64::MAX
        } else {
            value as u64
        }
    }
}

fn is_numch_char(c: char) -> (r: bool)
    ensures
        r == is_numch(c),
{
    ('0' <= c && c <= '9') || c == '.'
}

/// Parses a human-readable size string (`"137.5MB"`, `"2GB"`, `"0B"`) into a
/// byte count, per `spec_parse_size`.
pub fn parse_size_string(s: &str) -> (r: u64)
    ensures
        r == spec_parse_size(s@),
{
    let t = trim(s);
    let tlen = t.unicode_len();
    let mut nl: usize = 0;
    while nl < tlen && is_numch_char(t.get_char(nl))
        invariant
            tlen == t@.len(),
            nl <= tlen,
            forall|j: int| 0 <= j < nl ==> is_numch(t@[j]),
        decreases tlen - nl,
    {
        nl = nl + 1;
    }
    proof {
        lemma_num_prefix_unique(t@, nl as int);
    }
    let num = t.substring_char(0, nl);
    let unit_raw = t.substring_char(nl, tlen);
    let unit = trim(unit_raw);
    let mult = unit_multiplier(unit);
    proof {
        assert(num@ =~= t@.take(num_prefix_len(t@)));
        assert(unit_raw@ =~= t@.skip(num_prefix_len(t@)));
        assert(1 <= mult <= 1099511627776);
    }
    let numlen = nl;
    let dot = find_char(num, '.');
    proof {
        lemma_first_pos(num@, '.');
    }
    if numlen == 0 {
        return 0;
    }
    if dot < numlen {
        if numlen == 1 {
            return 0;
        }
        let rest = num.substring_char(dot + 1, numlen);
        let second = find_char(rest, '.');
        proof {
            assert(rest@ =~= num@.skip(dot as int + 1));
        }
        if second < numlen - dot - 1 {
            return 0;
        }
    }
    let int_val = digits_to_u64(num, 0, dot);
    let ghost intpart = num@.take(dot as int);
    proof {
        assert(num@.subrange(0, dot as int) =~= intpart);
    }
    if int_val == u64::MAX {
        proof {
            let t_s = spec_trim(s@);
            let nl_s = num_prefix_len(t_s);
            let num_s = t_s.take(nl_s);
            assert(num_s == num@);
            let unit_s = spec_lower(spec_trim(t_s.skip(nl_s)));
            let mult_s = spec_unit_mult(unit_s) as nat;
            assert(mult_s == mult);
            let dot_s = first_pos(num_s, '.');
            assert(dot_s == dot as int);
            let intpart_s = num_s.take(dot_s);
            assert(intpart_s == intpart);
            let sdv = crate::strutil::spec_digits_val(intpart);
            assert(sdv >= u64::MAX);
            assert(sdv * mult_s >= sdv * 1) by (nonlinear_arith)
                requires
                    mult_s >= 1,
                    sdv >= 0,
            ;
            assert(sdv * mult_s >= u64::MAX);
            assert(!(num_s.len() == 0 || (dot_s < num_s.len() && (num_s.len() == 1 || first_pos(
                num_s.skip(dot_s + 1),
                '.',
            ) < num_s.len() - dot_s - 1))));
            let frac_s = if dot_s < num_s.len() {
                num_s.skip(dot_s + 1)
            } else {
                Seq::<char>::empty()
            };
            let fl_s = if frac_s.len() > 12 {
                12int
            } else {
                frac_s.len() as int
            };
            let frac12_s = frac_s.take(fl_s);
            lemma_pow10_le(frac12_s.len() as nat, frac12_s.len() as nat);
            let value_s = sdv * mult_s + (crate::strutil::spec_digits_val(frac12_s) * mult_s)
                / pow10(frac12_s.len());
            assert(value_s >= sdv * mult_s);
            assert(value_s >= u64::MAX);
            assert(spec_parse_size(s@) == u64::MAX);
        }
        return u64::MAX;
    }
    let fl: usize = if dot < numlen {
        let f = numlen - dot - 1;
        if f > 12 {
            12
        } else {
            f
        }
    } else {
        0
    };
    let frac_val = if dot < numlen {
        digits_to_u64(num, dot + 1, dot + 1 + fl)
    } else {
        0
    };
    let ghost frac = if (dot as int) < num@.len() {
        num@.skip(dot as int + 1)
    } else {
        Seq::<char>::empty()
    };
    let ghost frac12 = frac.take(
        if frac.len() > 12 {
            12int
        } else {
            frac.len() as int
        },
    );
    proof {
        if dot < numlen {
            assert(num@.subrange(dot as int + 1, dot as int + 1 + fl as int) =~= frac12);
        } else {
            assert(frac12 =~= Seq::<char>::empty());
        }
        assert(frac12.len() == fl);
        lemma_digits_val_bound(frac12);
        lemma_pow10_le(fl as nat, 12);
        assert(pow10(12) == 1_000_000_000_000) by {
            reveal_with_fuel(pow10, 13);
        }
        assert(frac_val < pow10(fl as nat));
    }
    let p10 = pow10_u64(fl);
    proof {
        let iv = int_val as nat;
        let m = mult as nat;
        assert(iv * m <= 0xFFFF_FFFF_FFFF_FFFEnat * 1099511627776nat) by (nonlinear_arith)
            requires
                iv <= 0xFFFF_FFFF_FFFF_FFFEnat,
                m <= 1099511627776nat,
        ;
        let fv = frac_val as nat;
        assert(fv * m <= 1_000_000_000_000nat * 1099511627776nat) by (nonlinear_arith)
            requires
                fv <= 1_000_000_000_000nat,
                m <= 1099511627776nat,
        ;
    }
    let wide: u128 = int_val as u128 * mult as u128 + (frac_val as u128 * mult as u128) / (
    p10 as u128);
    if wide > 0xFFFF_FFFF_FFFF_FFFFu128 {
        u64::MAX
    } else {
        wide as u64
    }
}

/// Normalized container status: the raw state decides, with the status text
/// as a fallback for the exited and paused cases.
pub open spec fn spec_container_status(state: Seq<char>, status: Seq<char>) -> Seq<char> {
    let sl = spec_lower(state);
    let tl = spec_lower(status);
    if sl == spec_lower("running"@) {
        "running"@
    } else if sl == spec_lower("exited"@) || spec_contains_seq(tl, spec_lower("exited"@)) {
        "exited"@
    } else if sl == spec_lower("paused"@) || spec_contains_seq(tl, spec_lower("paused"@)) {
        "paused"@
    } else if sl == spec_lower("restarting"@) {
        "restarting"@
    } else {
        "unknown"@
    }
}

/// Maps a raw container state and status pair to one of the normalized
/// states: running, exited, paused, restarting or unknown.
pub fn parse_container_status(state: &str, status: &str) -> (r: String)
    ensures
        r@ == spec_container_status(state@, status@),
{
    if str_eq_insensitive(state, "running") {
        "running".to_owned()
    } else if str_eq_insensitive(state, "exited") || contains_insensitive(status, "exited") {
        "exited".to_owned()
    } else if str_eq_insensitive(state, "paused") || contains_insensitive(status, "paused") {
        "paused".to_owned()
    } else if str_eq_insensitive(state, "restarting") {
        "restarting".to_owned()
    } else {
        "unknown".to_owned()
    }
}

/// First index where `pat` occurs as a substring, or the length of `s` when
/// it does not.
pub open spec fn first_match(s: Seq<char>, pat: Seq<char>) -> int
    decreases s.len(),
{
    if pat.len() == 0 {
        0
    } else if s.len() < pat.len() {
        s.len() as int
    } else {
        if s.take(pat.len() as int) == pat {
            0
        } else {
            1 + first_match(s.drop_first(), pat)
        }
    }
}

proof fn lemma_first_match_unique(s: Seq<char>, pat: Seq<char>, i: int)
    requires
        pat.len() >= 1,
        0 <= i <= s.len(),
        forall|j: int|
            0 <= j < i && j + pat.len() <= s.len() ==> !(#[trigger] s.subrange(j, j + pat.len() as int)
                =~= pat),
        i + pat.len() <= s.len() ==> s.subrange(i, i + pat.len() as int) =~= pat,
        i + pat.len() > s.len() ==> i == s.len(),
    ensures
        first_match(s, pat) == i,
    decreases s.len(),
{
    if s.len() < pat.len() {
    } else if s.take(pat.len() as int) == pat {
        if i > 0 {
            let j0: int = 0;
            assert(s.subrange(j0, j0 + pat.len() as int) =~= s.take(pat.len() as int));
            assert(false);
        }
    } else {
        if i == 0 {
            let j0: int = 0;
            assert(s.subrange(j0, j0 + pat.len() as int) =~= s.take(pat.len() as int));
        }
        assert(i > 0);
        let d = s.drop_first();
        assert forall|j: int|
            0 <= j < i - 1 && j + pat.len() <= d.len() implies !(#[trigger] d.subrange(
            j,
            j + pat.len() as int,
        ) =~= pat) by {
            assert(d.subrange(j, j + pat.len() as int) =~= s.subrange(j + 1, j + 1 + pat.len() as int));
        }
        if i - 1 + pat.len() <= d.len() {
            assert(d.subrange(i - 1, i - 1 + pat.len() as int) =~= s.subrange(
                i,
                i + pat.len() as int,
            ));
        }
        lemma_first_match_unique(d, pat, i - 1);
    }
}

/// Finds the first occurrence of `pat`; the length of `s` means "absent".
pub fn find_str(s: &str, pat: &str) -> (r: usize)
    requires
        pat@.len() >= 1,
    ensures
        r == first_match(s@, pat@),
{
    let len = s.unicode_len();
    let plen = pat.unicode_len();
    if len < plen {
        proof {
            lemma_first_match_unique(s@, pat@, len as int);
        }
        return len;
    }
    let mut i: usize = 0;
    while i <= len - plen
        invariant
            len == s@.len(),
            plen == pat@.len(),
            1 <= plen <= len,
            i <= len - plen + 1,
            forall|j: int|
                0 <= j < i && j + plen <= len ==> !(#[trigger] s@.subrange(j, j + plen as int)
                    =~= pat@),
        decreases len - i,
    {
        if matches_at_pub(s, len, i, pat, plen) {
            proof {
                lemma_first_match_unique(s@, pat@, i as int);
            }
            return i;
        }
        i = i + 1;
    }
    proof {
        lemma_first_match_unique(s@, pat@, len as int);
    }
    len
}

fn matches_at_pub(hay: &str, hlen: usize, i: usize, needle: &str, nlen: usize) -> (r: bool)
    requires
        hlen == hay@.len(),
        nlen == needle@.len(),
        i + nlen <= hlen,
    ensures
        r == (hay@.subrange(i as int, i as int + nlen as int) =~= needle@),
{
    let mut j: usize = 0;
    while j < nlen
        invariant
            hlen == hay@.len(),
            nlen == needle@.len(),
            i + nlen <= hlen,
            j <= nlen,
            forall|k: int| 0 <= k < j ==> hay@[i + k] == needle@[k],
        decreases nlen - j,
    {
        if hay.get_char(i + j) != needle.get_char(j) {
            proof {
                assert(hay@.subrange(i as int, i as int + nlen as int)[j as int] == hay@[i as int
                    + j]);
            }
            return false;
        }
        j = j + 1;
    }
    proof {
        assert(hay@.subrange(i as int, i as int + nlen as int) =~= needle@);
    }
    true
}

/// A `"usage / limit"` pair: both sides parsed as size strings when exactly
/// one `" / "` separator occurs, zeros otherwise.
pub open spec fn spec_split_io(s: Seq<char>) -> (u64, u64) {
    let p = first_match(s, " / "@);
    if p + 3 <= s.len() && first_match(s.skip(p + 3), " / "@) == s.len() - p - 3 {
        (spec_parse_size(s.take(p)), spec_parse_size(s.skip(p + 3)))
    } else {
        (0, 0)
    }
}

fn split_io(s: &str) -> (r: (u64, u64))
    ensures
        r == spec_split_io(s@),
{
    proof {
        reveal_strlit(" / ");
    }
    let len = s.unicode_len();
    let p = find_str(s, " / ");
    proof {
        lemma_first_match_bounds(s@, " / "@);
    }
    if len >= 3 && p <= len - 3 {
        let rest = s.substring_char(p + 3, len);
        proof {
            assert(rest@ =~= s@.skip(p as int + 3));
        }
        let restlen = len - p - 3;
        let q = find_str(rest, " / ");
        if q == restlen {
            let left = s.substring_char(0, p);
            proof {
                assert(left@ =~= s@.take(p as int));
            }
            (parse_size_string(left), parse_size_string(rest))
        } else {
            proof {
                lemma_first_match_bounds(rest@, " / "@);
            }
            (0, 0)
        }
    } else {
        (0, 0)
    }
}

proof fn lemma_first_match_bounds(s: Seq<char>, pat: Seq<char>)
    requires
        pat.len() >= 1,
    ensures
        0 <= first_match(s, pat) <= s.len(),
    decreases s.len(),
{
    if s.len() >= pat.len() && !(s.take(pat.len() as int) == pat) {
        lemma_first_match_bounds(s.drop_first(), pat);
    }
}

/// Parses a `"used / limit"` memory pair into byte counts.
pub fn parse_memory_usage(mem_usage_str: &str) -> (r: (u64, u64))
    ensures
        r == spec_split_io(mem_usage_str@),
{
    split_io(mem_usage_str)
}

/// Parses a `"rx / tx"` network-I/O pair into byte counts.
pub fn parse_network_io(net_io_str: &str) -> (r: (u64, u64))
    ensures
        r == spec_split_io(net_io_str@),
{
    split_io(net_io_str)
}

/// Parses a `"read / write"` block-I/O pair into byte counts.
pub fn parse_block_io(block_io_str: &str) -> (r: (u64, u64))
    ensures
        r == spec_split_io(block_io_str@),
{
    split_io(block_io_str)
}

/// The string with every trailing `c` removed.
pub open spec fn strip_trailing(s: Seq<char>, c: char) -> Seq<char>
    decreases s.len(),
{
    if s.len() > 0 && s.last() == c {
        strip_trailing(s.drop_last(), c)
    } else {
        s
    }
}

/// Every character is a digit or a dot.
pub open spec fn all_numch(s: Seq<char>) -> bool {
    forall|i: int| 0 <= i < s.len() ==> is_numch(s[i])
}

/// The value of a plain decimal string in thousandths (fixed point): digits
/// with at most one dot, anything else reading as zero, saturating at
/// `u64::MAX`. Only the first twelve fractional digits count.
pub open spec fn spec_decimal_milli(num: Seq<char>) -> u64 {
    let dot = first_pos(num, '.');
    if num.len() == 0 || !all_numch(num) || (dot < num.len() && (num.len() == 1 || first_pos(
        num.skip(dot + 1),
        '.',
    ) < num.len() - dot - 1)) {
        0
    } else {
        let intpart = num.take(dot);
        let frac = if dot < num.len() {
            num.skip(dot + 1)
        } else {
            Seq::<char>::empty()
        };
        let fl = if frac.len() > 12 {
            12int
        } else {
            frac.len() as int
        };
        let frac12 = frac.take(fl);
        let value = crate::strutil::spec_digits_val(intpart) * 1000 + (
        crate::strutil::spec_digits_val(frac12) * 1000) / pow10(frac12.len());
        if value > u64::MAX {
            u64::MAX
        } else {
            value as u64
        }
    }
}

fn decimal_milli(num: &str) -> (r: u64)
    ensures
        r == spec_decimal_milli(num@),
{
    let len = num.unicode_len();
    if len == 0 {
        return 0;
    }
    let mut i: usize = 0;
    while i < len
        invariant
            len == num@.len(),
            i <= len,
            forall|j: int| 0 <= j < i ==> is_numch(num@[j]),
        decreases len - i,
    {
        if !is_numch_char(num.get_char(i)) {
            return 0;
        }
        i = i + 1;
    }
    let dot = find_char(num, '.');
    proof {
        lemma_first_pos(num@, '.');
    }
    if dot < len {
        if len == 1 {
            return 0;
        }
        let rest = num.substring_char(dot + 1, len);
        let second = find_char(rest, '.');
        proof {
            assert(rest@ =~= num@.skip(dot as int + 1));
        }
        if second < len - dot - 1 {
            return 0;
        }
    }
    let int_val = digits_to_u64(num, 0, dot);
    let ghost intpart = num@.take(dot as int);
    proof {
        assert(num@.subrange(0, dot as int) =~= intpart);
    }
    if int_val == u64::MAX {
        proof {
            let sdv = crate::strutil::spec_digits_val(intpart);
            assert(sdv >= u64::MAX);
            let frac_s = if (dot as int) < num@.len() {
                num@.skip(dot as int + 1)
            } else {
                Seq::<char>::empty()
            };
            let fl_s = if frac_s.len() > 12 {
                12int
            } else {
                frac_s.len() as int
            };
            let frac12_s = frac_s.take(fl_s);
            lemma_pow10_le(frac12_s.len() as nat, frac12_s.len() as nat);
            assert(sdv * 1000 >= sdv);
        }
        return u64::MAX;
    }
    let fl: usize = if dot < len {
        let f = len - dot - 1;
        if f > 12 {
            12
        } else {
            f
        }
    } else {
        0
    };
    let frac_val = if dot < len {
        digits_to_u64(num, dot + 1, dot + 1 + fl)
    } else {
        0
    };
    let ghost frac = if (dot as int) < num@.len() {
        num@.skip(dot as int + 1)
    } else {
        Seq::<char>::empty()
    };
    let ghost frac12 = frac.take(
        if frac.len() > 12 {
            12int
        } else {
            frac.len() as int
        },
    );
    proof {
        if dot < len {
            assert(num@.subrange(dot as int + 1, dot as int + 1 + fl as int) =~= frac12);
        } else {
            assert(frac12 =~= Seq::<char>::empty());
        }
        assert(frac12.len() == fl);
        lemma_digits_val_bound(frac12);
        lemma_pow10_le(fl as nat, 12);
        assert(pow10(12) == 1_000_000_000_000) by {
            reveal_with_fuel(pow10, 13);
        }
        assert(frac_val < pow10(fl as nat));
    }
    let p10 = pow10_u64(fl);
    let wide: u128 = int_val as u128 * 1000u128 + (frac_val as u128 * 1000u128) / (p10 as u128);
    if wide > 0xFFFF_FFFF_FFFF_FFFFu128 {
        u64::MAX
    } else {
        wide as u64
    }
}

/// Parses a CLI percentage such as `"12.34%"` into thousandths of a percent;
/// non-numeric text (including the `"--"` placeholder) reads as zero.
pub fn parse_percent_milli(s: &str) -> (r: u64)
    ensures
        r == spec_decimal_milli(strip_trailing(s@, '%')),
{
    let len = s.unicode_len();
    let mut b: usize = len;
    while b > 0 && s.get_char(b - 1) == '%'
        invariant
            len == s@.len(),
            b <= len,
            forall|j: int| b <= j < len ==> s@[j] == '%',
        decreases b,
    {
        b = b - 1;
    }
    let core = s.substring_char(0, b);
    proof {
        lemma_strip_trailing_take(s@, '%', b as int);
        assert(core@ =~= s@.take(b as int));
    }
    decimal_milli(core)
}

proof fn lemma_strip_trailing_take(s: Seq<char>, c: char, b: int)
    requires
        0 <= b <= s.len(),
        forall|j: int| b <= j < s.len() ==> s[j] == c,
        b > 0 ==> s[b - 1] != c,
    ensures
        strip_trailing(s, c) == s.take(b),
    decreases s.len(),
{
    if s.len() > 0 && s.last() == c {
        assert(b < s.len());
        assert forall|j: int| b <= j < s.drop_last().len() implies s.drop_last()[j] == c by {
            assert(s.drop_last()[j] == s[j]);
        }
        lemma_strip_trailing_take(s.drop_last(), c, b);
        assert(s.drop_last().take(b) =~= s.take(b));
    } else {
        assert(s.take(b) =~= s);
    }
}

/// First index of a whitespace character, or the length when there is none.
pub open spec fn first_space_pos(s: Seq<char>) -> int
    decreases s.len(),
{
    if s.len() == 0 {
        0
    } else if crate::strutil::is_space(s[0]) {
        0
    } else {
        1 + first_space_pos(s.drop_first())
    }
}

proof fn lemma_first_space_unique(s: Seq<char>, i: int)
    requires
        0 <= i <= s.len(),
        forall|j: int| 0 <= j < i ==> !crate::strutil::is_space(s[j]),
        i < s.len() ==> crate::strutil::is_space(s[i]),
    ensures
        first_space_pos(s) == i,
    decreases s.len(),
{
    if s.len() > 0 && !crate::strutil::is_space(s[0]) {
        assert(i > 0);
        assert forall|j: int| 0 <= j < i - 1 implies !crate::strutil::is_space(
            #[trigger] s.drop_first()[j],
        ) by {
            assert(s.drop_first()[j] == s[j + 1]);
        }
        if i - 1 < s.drop_first().len() {
            assert(s.drop_first()[i - 1] == s[i]);
        }
        lemma_first_space_unique(s.drop_first(), i - 1);
    }
}

fn find_space(s: &str) -> (r: usize)
    ensures
        r == first_space_pos(s@),
{
    let len = s.unicode_len();
    let mut i: usize = 0;
    while i < len
        invariant
            len == s@.len(),
            i <= len,
            forall|j: int| 0 <= j < i ==> !crate::strutil::is_space(s@[j]),
        decreases len - i,
    {
        let c = s.get_char(i);
        if c == ' ' || c == '\t' || c == '\n' || c == '\r' {
            proof {
                lemma_first_space_unique(s@, i as int);
            }
            return i;
        }
        i = i + 1;
    }
    proof {
        lemma_first_space_unique(s@, len as int);
    }
    len
}

/// The kilobyte figure of a `MemTotal:` line, scaled to bytes; zero when the
/// number cannot be read.
pub open spec fn spec_meminfo_kb(line: Seq<char>) -> u64 {
    let t = spec_trim(line.skip(9));
    let tok = t.take(first_space_pos(t));
    if tok.len() > 0 && all_digits(tok) {
        let v = crate::strutil::spec_digits_val(tok) * 1024;
        if v > u64::MAX {
            u64::MAX
        } else {
            v as u64
        }
    } else {
        0
    }
}

/// The `MemTotal` figure of a `/proc/meminfo` text, in bytes: the first line
/// starting with `MemTotal:` decides; zero when there is none.
pub open spec fn spec_meminfo_total(lines: Seq<Seq<char>>) -> u64
    decreases lines.len(),
{
    if lines.len() == 0 {
        0
    } else if crate::strutil::spec_starts_with(lines[0], "MemTotal:"@) {
        spec_meminfo_kb(lines[0])
    } else {
        spec_meminfo_total(lines.drop_first())
    }
}

/// Reads the total-memory line out of a `/proc/meminfo` style text.
pub fn parse_meminfo_total(content: &str) -> (r: u64)
    ensures
        r == spec_meminfo_total(spec_split(content@, '\n')),
{
    let lines = split_char(content, '\n');
    let ghost lv = spec_split(content@, '\n');
    let mut i: usize = 0;
    proof {
        assert(lv.skip(0) =~= lv);
    }
    while i < lines.len()
        invariant
            crate::strutil::views(lines@) == lv,
            lv == spec_split(content@, '\n'),
            i <= lines@.len(),
            spec_meminfo_total(lv) == spec_meminfo_total(lv.skip(i as int)),
            forall|j: int| 0 <= j < i ==> !crate::strutil::spec_starts_with(lv[j], "MemTotal:"@),
        decreases lines@.len() - i,
    {
        let line: &str = lines[i].as_str();
        proof {
            assert(line@ == lv[i as int]);
            assert(lv.skip(i as int)[0] == lv[i as int]);
        }
        if crate::strutil::starts_with(line, "MemTotal:") {
            let llen = line.unicode_len();
            proof {
                reveal_strlit("MemTotal:");
                assert(lv.skip(i as int).len() > 0);
                assert(spec_meminfo_total(lv.skip(i as int)) == spec_meminfo_kb(lv[i as int]));
            }
            let rest = line.substring_char(9, llen);
            let t = trim(rest);
            proof {
                assert(rest@ =~= line@.skip(9));
            }
            let tlen = t.unicode_len();
            let sp = find_space(t);
            proof {
                lemma_first_space_unique_bounds(t@);
            }
            let tok = t.substring_char(0, sp);
            proof {
                assert(tok@ =~= t@.take(first_space_pos(t@)));
            }
            let toklen = tok.unicode_len();
            if toklen > 0 && is_all_digits(tok) {
                let v = digits_to_u64(tok, 0, toklen);
                proof {
                    assert(tok@.subrange(0, toklen as int) =~= tok@);
                }
                let wide: u128 = v as u128 * 1024u128;
                if v == u64::MAX || wide > 0xFFFF_FFFF_FFFF_FFFFu128 {
                    return u64::MAX;
                } else {
                    return wide as u64;
                }
            } else {
                return 0;
            }
        }
        proof {
            assert(lv.skip(i as int).drop_first() =~= lv.skip(i as int + 1));
        }
        i = i + 1;
    }
    proof {
        assert(lv.skip(lines@.len() as int) =~= Seq::<Seq<char>>::empty());
    }
    0
}

/// The CPU count that a core-count probe reports: the trimmed output read
/// as a plain number, with 1 standing in for anything unreadable (a count
/// at the integer limit reads as 1 too).
pub open spec fn spec_parse_cpu_count(s: Seq<char>) -> u64 {
    let t = spec_trim(s);
    if t.len() > 0 && all_digits(t) && crate::strutil::spec_digits_val(t) < u64::MAX {
        crate::strutil::spec_digits_val(t) as u64
    } else {
        1
    }
}

/// Parses the output of a core-count probe such as `nproc`.
pub fn parse_cpu_count(s: &str) -> (r: u64)
    ensures
        r == spec_parse_cpu_count(s@),
{
    let t = trim(s);
    let tlen = t.unicode_len();
    if tlen == 0 || !is_all_digits(t) {
        return 1;
    }
    let v = digits_to_u64(t, 0, tlen);
    proof {
        assert(t@.subrange(0, tlen as int) =~= t@);
    }
    if v == u64::MAX {
        1
    } else {
        v
    }
}

/// One entry of the ports text: `host:container` with an optional
/// `/protocol` (default `tcp`); both sides must be port numbers; anything
/// else is dropped.
pub open spec fn spec_port_entry(seg: Seq<char>) -> Option<(u16, u16, Seq<char>)> {
    let t = spec_trim(seg);
    if t.len() == 0 {
        None
    } else {
        let slash = first_pos(t, '/');
        let pp = t.take(slash);
        let proto = if slash < t.len() {
            let rest = t.skip(slash + 1);
            rest.take(first_pos(rest, '/'))
        } else {
            "tcp"@
        };
        let colon = first_pos(pp, ':');
        if colon < pp.len() && first_pos(pp.skip(colon + 1), ':') == pp.len() - colon - 1 {
            let h = pp.take(colon);
            let c = pp.skip(colon + 1);
            if h.len() > 0 && all_digits(h) && crate::strutil::spec_digits_val(h) <= 65535
                && c.len() > 0 && all_digits(c) && crate::strutil::spec_digits_val(c) <= 65535 {
                Some(
                    (
                        crate::strutil::spec_digits_val(h) as u16,
                        crate::strutil::spec_digits_val(c) as u16,
                        proto,
                    ),
                )
            } else {
                None
            }
        } else {
            None
        }
    }
}

/// The port mappings that a comma-separated text yields, in order.
pub open spec fn spec_ports_entries(segs: Seq<Seq<char>>) -> Seq<(u16, u16, Seq<char>)>
    decreases segs.len(),
{
    if segs.len() == 0 {
        Seq::empty()
    } else {
        let rest = spec_ports_entries(segs.drop_last());
        match spec_port_entry(segs.last()) {
            Some(e) => rest.push(e),
            None => rest,
        }
    }
}

fn parse_port_number(s: &str, from: usize, to: usize) -> (r: Option<u16>)
    requires
        from <= to <= s@.len(),
    ensures
        ({
            let d = s@.subrange(from as int, to as int);
            match r {
                Some(p) => d.len() > 0 && all_digits(d) && crate::strutil::spec_digits_val(d)
                    == p as nat && p <= 65535,
                None => !(d.len() > 0 && all_digits(d) && crate::strutil::spec_digits_val(d)
                    <= 65535),
            }
        }),
{
    let ghost d = s@.subrange(from as int, to as int);
    if to == from {
        return None;
    }
    let mut i: usize = from;
    while i < to
        invariant
            from <= i <= to <= s@.len(),
            d == s@.subrange(from as int, to as int),
            forall|j: int| 0 <= j < i - from ==> is_digit(d[j]),
        decreases to - i,
    {
        let c = s.get_char(i);
        if !('0' <= c && c <= '9') {
            proof {
                assert(d[i - from as int] == s@[i as int]);
            }
            return None;
        }
        proof {
            assert(d[i - from as int] == s@[i as int]);
        }
        i = i + 1;
    }
    let v = digits_to_u64(s, from, to);
    if v <= 65535 {
        Some(v as u16)
    } else {
        None
    }
}

/// Parses the creation-dialog ports text (`"8080:80/tcp,9000:9000/udp"`)
/// into port mappings; malformed entries are dropped.
pub fn parse_ports_text(ports_text: &str) -> (r: Vec<crate::records::PortMapping>)
    ensures
        r@.map_values(
            |p: crate::records::PortMapping| (p.host_port, p.container_port, p.protocol@),
        ) == spec_ports_entries(spec_split(ports_text@, ',')),
{
    let segs = split_char(ports_text, ',');
    let ghost segv = spec_split(ports_text@, ',');
    let mut out: Vec<crate::records::PortMapping> = Vec::new();
    let mut i: usize = 0;
    proof {
        assert(segv.take(0) =~= Seq::<Seq<char>>::empty());
        assert(out@.map_values(
            |p: crate::records::PortMapping| (p.host_port, p.container_port, p.protocol@),
        ) =~= spec_ports_entries(segv.take(0)));
    }
    while i < segs.len()
        invariant
            views(segs@) == segv,
            segv == spec_split(ports_text@, ','),
            i <= segs@.len(),
            out@.map_values(
                |p: crate::records::PortMapping| (p.host_port, p.container_port, p.protocol@),
            ) == spec_ports_entries(segv.take(i as int)),
        decreases segs@.len() - i,
    {
        proof {
            assert(segs@[i as int]@ == segv[i as int]);
            assert(segv.take(i as int + 1).drop_last() =~= segv.take(i as int));
            assert(segv.take(i as int + 1).last() == segv[i as int]);
        }
        let ghost before = out@.map_values(
            |p: crate::records::PortMapping| (p.host_port, p.container_port, p.protocol@),
        );
        let seg: &str = segs[i].as_str();
        let t = trim(seg);
        let tlen = t.unicode_len();
        if tlen > 0 {
            let slash = find_char(t, '/');
            proof {
                lemma_first_pos(t@, '/');
            }
            let proto: String = if slash < tlen {
                let rest = t.substring_char(slash + 1, tlen);
                proof {
                    assert(rest@ =~= t@.skip(slash as int + 1));
                }
                let p2 = find_char(rest, '/');
                proof {
                    lemma_first_pos(rest@, '/');
                }
                let pr = rest.substring_char(0, p2);
                proof {
                    assert(pr@ =~= t@.skip(slash as int + 1).take(first_pos(
                        t@.skip(slash as int + 1),
                        '/',
                    )));
                }
                pr.to_owned()
            } else {
                "tcp".to_owned()
            };
            let pp = t.substring_char(0, slash);
            proof {
                assert(pp@ =~= t@.take(slash as int));
            }
            let pplen = slash;
            let colon = find_char(pp, ':');
            proof {
                lemma_first_pos(pp@, ':');
            }
            if colon < pplen {
                let rest2 = pp.substring_char(colon + 1, pplen);
                proof {
                    assert(rest2@ =~= pp@.skip(colon as int + 1));
                }
                let second = find_char(rest2, ':');
                if second == pplen - colon - 1 {
                    let hp = parse_port_number(pp, 0, colon);
                    let cp = parse_port_number(pp, colon + 1, pplen);
                    proof {
                        assert(pp@.subrange(0, colon as int) =~= pp@.take(colon as int));
                        assert(pp@.subrange(colon as int + 1, pplen as int) =~= pp@.skip(
                            colon as int + 1,
                        ));
                    }
                    match (hp, cp) {
                        (Some(h), Some(c)) => {
                            out.push(
                                crate::records::PortMapping {
                                    host_port: h,
                                    container_port: c,
                                    protocol: proto,
                                },
                            );
                            proof {
                                assert(out@.map_values(
                                    |p: crate::records::PortMapping| (
                                        p.host_port,
                                        p.container_port,
                                        p.protocol@,
                                    ),
                                ) =~= before.push(
                                    spec_port_entry(segv[i as int])->Some_0,
                                ));
                            }
                        },
                        _ => {},
                    }
                }
            }
        }
        proof {
            assert(out@.map_values(
                |p: crate::records::PortMapping| (p.host_port, p.container_port, p.protocol@),
            ) =~= spec_ports_entries(segv.take(i as int + 1)));
        }
        i = i + 1;
    }
    proof {
        assert(segv.take(segv.len() as int) =~= segv);
    }
    out
}

/// One entry of the volumes text: `host:container` with an optional third
/// `ro` marker; entries without both paths are dropped.
pub open spec fn spec_volume_entry(seg: Seq<char>) -> Option<(Seq<char>, Seq<char>, bool)> {
    let t = spec_trim(seg);
    if t.len() == 0 {
        None
    } else {
        let c1 = first_pos(t, ':');
        if c1 == t.len() {
            None
        } else {
            let host = t.take(c1);
            let rest1 = t.skip(c1 + 1);
            let c2 = first_pos(rest1, ':');
            let cont = rest1.take(c2);
            let ro = if c2 < rest1.len() {
                let rest2 = rest1.skip(c2 + 1);
                rest2.take(first_pos(rest2, ':')) == "ro"@
            } else {
                false
            };
            Some((host, cont, ro))
        }
    }
}

/// The volume mappings that a comma-separated text yields, in order.
pub open spec fn spec_volume_entries(segs: Seq<Seq<char>>) -> Seq<(Seq<char>, Seq<char>, bool)>
    decreases segs.len(),
{
    if segs.len() == 0 {
        Seq::empty()
    } else {
        let rest = spec_volume_entries(segs.drop_last());
        match spec_volume_entry(segs.last()) {
            Some(e) => rest.push(e),
            None => rest,
        }
    }
}

/// Parses the creation-dialog volumes text
/// (`"/host:/container,/h2:/c2:ro"`) into bind mounts.
pub fn parse_volumes_text(volumes_text: &str) -> (r: Vec<crate::records::VolumeMapping>)
    ensures
        r@.map_values(
            |v: crate::records::VolumeMapping| (v.host_path@, v.container_path@, v.read_only),
        ) == spec_volume_entries(spec_split(volumes_text@, ',')),
{
    let segs = split_char(volumes_text, ',');
    let ghost segv = spec_split(volumes_text@, ',');
    let mut out: Vec<crate::records::VolumeMapping> = Vec::new();
    let mut i: usize = 0;
    proof {
        assert(segv.take(0) =~= Seq::<Seq<char>>::empty());
        assert(out@.map_values(
            |v: crate::records::VolumeMapping| (v.host_path@, v.container_path@, v.read_only),
        ) =~= spec_volume_entries(segv.take(0)));
    }
    while i < segs.len()
        invariant
            views(segs@) == segv,
            segv == spec_split(volumes_text@, ','),
            i <= segs@.len(),
            out@.map_values(
                |v: crate::records::VolumeMapping| (v.host_path@, v.container_path@, v.read_only),
            ) == spec_volume_entries(segv.take(i as int)),
        decreases segs@.len() - i,
    {
        proof {
            assert(segs@[i as int]@ == segv[i as int]);
            assert(segv.take(i as int + 1).drop_last() =~= segv.take(i as int));
            assert(segv.take(i as int + 1).last() == segv[i as int]);
        }
        let ghost before = out@.map_values(
            |v: crate::records::VolumeMapping| (v.host_path@, v.container_path@, v.read_only),
        );
        let seg: &str = segs[i].as_str();
        let t = trim(seg);
        let tlen = t.unicode_len();
        if tlen > 0 {
            let c1 = find_char(t, ':');
            proof {
                lemma_first_pos(t@, ':');
            }
            if c1 < tlen {
                let host = t.substring_char(0, c1);
                let rest1 = t.substring_char(c1 + 1, tlen);
                proof {
                    assert(host@ =~= t@.take(c1 as int));
                    assert(rest1@ =~= t@.skip(c1 as int + 1));
                }
                let r1len = tlen - c1 - 1;
                let c2 = find_char(rest1, ':');
                proof {
                    lemma_first_pos(rest1@, ':');
                }
                let cont = rest1.substring_char(0, c2);
                proof {
                    assert(cont@ =~= rest1@.take(first_pos(rest1@, ':')));
                }
                let ro: bool = if c2 < r1len {
                    let rest2 = rest1.substring_char(c2 + 1, r1len);
                    proof {
                        assert(rest2@ =~= rest1@.skip(c2 as int + 1));
                    }
                    let c3 = find_char(rest2, ':');
                    proof {
                        lemma_first_pos(rest2@, ':');
                    }
                    let third = rest2.substring_char(0, c3);
                    proof {
                        assert(third@ =~= rest1@.skip(c2 as int + 1).take(first_pos(
                            rest1@.skip(c2 as int + 1),
                            ':',
                        )));
                    }
                    crate::strutil::str_eq(third, "ro")
                } else {
                    false
                };
                out.push(
                    crate::records::VolumeMapping {
                        host_path: host.to_owned(),
                        container_path: cont.to_owned(),
                        read_only: ro,
                    },
                );
                proof {
                    assert(out@.map_values(
                        |v: crate::records::VolumeMapping| (
                            v.host_path@,
                            v.container_path@,
                            v.read_only,
                        ),
                    ) =~= before.push(spec_volume_entry(segv[i as int])->Some_0));
                }
            }
        }
        proof {
            assert(out@.map_values(
                |v: crate::records::VolumeMapping| (v.host_path@, v.container_path@, v.read_only),
            ) =~= spec_volume_entries(segv.take(i as int + 1)));
        }
        i = i + 1;
    }
    proof {
        assert(segv.take(segv.len() as int) =~= segv);
    }
    out
}

/// One entry of the environment text: `key=value`, split at the first `=`;
/// entries without one are dropped.
pub open spec fn spec_env_entry(seg: Seq<char>) -> Option<(Seq<char>, Seq<char>)> {
    let t = spec_trim(seg);
    if t.len() == 0 {
        None
    } else {
        let e = first_pos(t, '=');
        if e == t.len() {
            None
        } else {
            Some((t.take(e), t.skip(e + 1)))
        }
    }
}

/// The environment variables that a comma-separated text yields, in order.
pub open spec fn spec_env_entries(segs: Seq<Seq<char>>) -> Seq<(Seq<char>, Seq<char>)>
    decreases segs.len(),
{
    if segs.len() == 0 {
        Seq::empty()
    } else {
        let rest = spec_env_entries(segs.drop_last());
        match spec_env_entry(segs.last()) {
            Some(e) => rest.push(e),
            None => rest,
        }
    }
}

/// Parses the creation-dialog environment text (`"K1=v1,K2=v2"`).
pub fn parse_env_vars_text(env_vars_text: &str) -> (r: Vec<crate::records::EnvVar>)
    ensures
        r@.map_values(|e: crate::records::EnvVar| (e.key@, e.value@)) == spec_env_entries(
            spec_split(env_vars_text@, ','),
        ),
{
    let segs = split_char(env_vars_text, ',');
    let ghost segv = spec_split(env_vars_text@, ',');
    let mut out: Vec<crate::records::EnvVar> = Vec::new();
    let mut i: usize = 0;
    proof {
        assert(segv.take(0) =~= Seq::<Seq<char>>::empty());
        assert(out@.map_values(|e: crate::records::EnvVar| (e.key@, e.value@))
            =~= spec_env_entries(segv.take(0)));
    }
    while i < segs.len()
        invariant
            views(segs@) == segv,
            segv == spec_split(env_vars_text@, ','),
            i <= segs@.len(),
            out@.map_values(|e: crate::records::EnvVar| (e.key@, e.value@)) == spec_env_entries(
                segv.take(i as int),
            ),
        decreases segs@.len() - i,
    {
        proof {
            assert(segs@[i as int]@ == segv[i as int]);
            assert(segv.take(i as int + 1).drop_last() =~= segv.take(i as int));
            assert(segv.take(i as int + 1).last() == segv[i as int]);
        }
        let ghost before = out@.map_values(|e: crate::records::EnvVar| (e.key@, e.value@));
        let seg: &str = segs[i].as_str();
        let t = trim(seg);
        let tlen = t.unicode_len();
        if tlen > 0 {
            let e = find_char(t, '=');
            proof {
                lemma_first_pos(t@, '=');
            }
            if e < tlen {
                let key = t.substring_char(0, e);
                let value = t.substring_char(e + 1, tlen);
                proof {
                    assert(key@ =~= t@.take(e as int));
                    assert(value@ =~= t@.skip(e as int + 1));
                }
                out.push(
                    crate::records::EnvVar { key: key.to_owned(), value: value.to_owned() },
                );
                proof {
                    assert(out@.map_values(|ev: crate::records::EnvVar| (ev.key@, ev.value@))
                        =~= before.push(spec_env_entry(segv[i as int])->Some_0));
                }
            }
        }
        proof {
            assert(out@.map_values(|ev: crate::records::EnvVar| (ev.key@, ev.value@))
                =~= spec_env_entries(segv.take(i as int + 1)));
        }
        i = i + 1;
    }
    proof {
        assert(segv.take(segv.len() as int) =~= segv);
    }
    out
}

proof fn lemma_first_space_unique_bounds(s: Seq<char>)
    ensures
        0 <= first_space_pos(s) <= s.len(),
    decreases s.len(),
{
    if s.len() > 0 && !crate::strutil::is_space(s[0]) {
        lemma_first_space_unique_bounds(s.drop_first());
    }
}

} // verus!
