//! Address families: the textual grammars of IPv4 and IPv6 addresses, with
//! strict parsing (no partial matches, no leading zeros in IPv4 octets).
use vstd::prelude::*;
use crate::text::{chars_of, lemma_split_nonempty, lemma_split_without_sep, split_bounds, split_on, sub_vec};

verus! {

pub open spec fn is_digit(c: char) -> bool {
    '0' <= c && c <= '9'
}

pub open spec fn is_hex_digit(c: char) -> bool {
    is_digit(c) || ('a' <= c && c <= 'f') || ('A' <= c && c <= 'F')
}

/// The number that a string of decimal digits denotes.
pub open spec fn decimal_value(s: Seq<char>) -> int
    decreases s.len(),
{
    if s.len() == 0 {
        0
    } else {
        decimal_value(s.drop_last()) * 10 + (s.last() as u32 - '0' as u32)
    }
}

/// One to three decimal digits, no leading zero, at most 255.
pub open spec fn is_octet(p: Seq<char>) -> bool {
    &&& 1 <= p.len() <= 3
    &&& forall|i: int| 0 <= i < p.len() ==> is_digit(#[trigger] p[i])
    &&& (p.len() == 1 || p[0] != '0')
    &&& decimal_value(p) <= 255
}

/// Dotted-quad notation: exactly four octets separated by `.`.
pub open spec fn is_ipv4_text(s: Seq<char>) -> bool {
    let parts = split_on(s, '.');
    parts.len() == 4 && forall|k: int| 0 <= k < 4 ==> is_octet(#[trigger] parts[k])
}

/// One to four hexadecimal digits.
pub open spec fn is_hex_group(p: Seq<char>) -> bool {
    1 <= p.len() <= 4 && forall|i: int| 0 <= i < p.len() ==> is_hex_digit(#[trigger] p[i])
}

pub open spec fn all_hex_groups(parts: Seq<Seq<char>>) -> bool {
    forall|k: int| 0 <= k < parts.len() ==> is_hex_group(#[trigger] parts[k])
}

/// How many 16-bit groups a run of colon-separated groups stands for (an empty
/// run stands for none); where `v4_tail` holds, the last item may be an IPv4
/// address, which stands for two. `None` where the run is malformed.
pub open spec fn group_count(s: Seq<char>, v4_tail: bool) -> Option<nat> {
    if s.len() == 0 {
        Some(0)
    } else {
        let parts = split_on(s, ':');
        if all_hex_groups(parts) {
            Some(parts.len())
        } else if v4_tail && all_hex_groups(parts.drop_last()) && is_ipv4_text(parts.last()) {
            Some(parts.len() + 1)
        } else {
            None
        }
    }
}

pub open spec fn double_colon_at(s: Seq<char>, k: int) -> bool {
    0 <= k && k + 1 < s.len() && s[k] == ':' && s[k + 1] == ':'
}

pub open spec fn first_double_colon_at(s: Seq<char>, k: int) -> bool {
    double_colon_at(s, k) && forall|j: int| 0 <= j < k ==> !double_colon_at(s, j)
}

/// With `::` at `k`: what precedes it is a run of plain groups, what follows
/// it a run that may end in an IPv4 address, and `::` stands for at least one
/// group of zeros.
pub open spec fn compressed_ok(s: Seq<char>, k: int) -> bool {
    match (group_count(s.take(k), false), group_count(s.skip(k + 2), true)) {
        (Some(h), Some(t)) => h + t <= 7,
        _ => false,
    }
}

/// Colon-hex notation: eight groups, or fewer with one `::`, the last two
/// groups optionally written as an IPv4 address.
pub open spec fn is_ipv6_text(s: Seq<char>) -> bool {
    if exists|k: int| double_colon_at(s, k) {
        exists|k: int| first_double_colon_at(s, k) && compressed_ok(s, k)
    } else {
        group_count(s, true) == Some(8nat)
    }
}

/// A string with none of `c` in any piece of its split, where `c` is not the
/// separator, holds no `c`.
proof fn lemma_char_absent_from_pieces(s: Seq<char>, sep: char, c: char)
    requires
        c != sep,
        forall|k: int, i: int|
            0 <= k < split_on(s, sep).len() && 0 <= i < split_on(s, sep)[k].len()
                ==> split_on(s, sep)[k][i] != c,
    ensures
        forall|i: int| 0 <= i < s.len() ==> s[i] != c,
    decreases s.len(),
{
    if s.len() > 0 {
        let init = s.drop_last();
        let sp = split_on(init, sep);
        lemma_split_nonempty(init, sep);
        if s.last() != sep {
            assert forall|k: int, i: int| 0 <= k < sp.len() && 0 <= i < sp[k].len() implies sp[k][i]
                != c by {
                if k == sp.len() - 1 {
                    assert(split_on(s, sep)[k][i] == sp[k][i]);
                } else {
                    assert(split_on(s, sep)[k] == sp[k]);
                }
            }
            let last = split_on(s, sep)[sp.len() - 1];
            assert(last[last.len() - 1] == s.last());
        } else {
            assert forall|k: int, i: int| 0 <= k < sp.len() && 0 <= i < sp[k].len() implies sp[k][i]
                != c by {
                assert(split_on(s, sep)[k] == sp[k]);
            }
        }
        lemma_char_absent_from_pieces(init, sep, c);
        assert forall|i: int| 0 <= i < s.len() implies s[i] != c by {
            if i < s.len() - 1 {
                assert(s[i] == init[i]);
            }
        }
    }
}

/// No string is written both as an IPv4 and as an IPv6 address.
pub proof fn lemma_families_exclusive(s: Seq<char>)
    ensures
        !(is_ipv4_text(s) && is_ipv6_text(s)),
{
    if is_ipv4_text(s) {
        let parts = split_on(s, '.');
        assert forall|k: int, i: int| 0 <= k < parts.len() && 0 <= i < parts[k].len() implies parts[k][i]
            != ':' by {
            assert(is_octet(parts[k]));
            assert(is_digit(parts[k][i]));
        }
        lemma_char_absent_from_pieces(s, '.', ':');
        assert(forall|k: int| !double_colon_at(s, k));
        if s.len() > 0 {
            lemma_split_without_sep(s, ':');
        }
    }
}

fn digit(c: char) -> (r: bool)
    ensures
        r == is_digit(c),
{
    '0' <= c && c <= '9'
}

fn hex_digit(c: char) -> (r: bool)
    ensures
        r == is_hex_digit(c),
{
    ('0' <= c && c <= '9') || ('a' <= c && c <= 'f') || ('A' <= c && c <= 'F')
}

/// Whether `s[a..b]` is an octet.
fn octet_at(s: &Vec<char>, a: usize, b: usize) -> (r: bool)
    requires
        a <= b <= s@.len(),
    ensures
        r == is_octet(s@.subrange(a as int, b as int)),
{
    let ghost p = s@.subrange(a as int, b as int);
    if b - a < 1 || b - a > 3 {
        return false;
    }
    let mut v: u32 = 0;
    let mut i: usize = a;
    while i < b
        invariant
            a <= i <= b <= s@.len(),
            b - a <= 3,
            p == s@.subrange(a as int, b as int),
            forall|j: int| 0 <= j < i - a ==> is_digit(#[trigger] p[j]),
            v == decimal_value(p.take(i - a)),
            i - a <= 1 ==> v < 10,
            i - a <= 2 ==> v < 100,
            v < 1000,
        decreases b - i,
    {
        let c = s[i];
        if !digit(c) {
            assert(!is_digit(p[i - a]));
            return false;
        }
        assert(p.take(i + 1 - a).drop_last() =~= p.take(i - a));
        v = v * 10 + (c as u32 - '0' as u32);
        i = i + 1;
    }
    assert(p.take(b - a) =~= p);
    (b - a == 1 || s[a] != '0') && v <= 255
}

/// Whether `s` is a dotted-quad IPv4 address.
fn ipv4_chars(s: &Vec<char>) -> (r: bool)
    ensures
        r == is_ipv4_text(s@),
{
    let bounds = split_bounds(s, '.');
    if bounds.len() != 4 {
        return false;
    }
    let mut k: usize = 0;
    while k < 4
        invariant
            k <= 4,
            bounds@.len() == 4,
            bounds@.len() == split_on(s@, '.').len(),
            forall|m: int|
                0 <= m < bounds@.len() ==> bounds@[m].0 <= bounds@[m].1 <= s@.len() && s@.subrange(
                    #[trigger] bounds@[m].0 as int,
                    bounds@[m].1 as int,
                ) == split_on(s@, '.')[m],
            forall|m: int| 0 <= m < k ==> is_octet(#[trigger] split_on(s@, '.')[m]),
        decreases 4 - k,
    {
        let (a, b) = bounds[k];
        assert(s@.subrange(bounds@[k as int].0 as int, bounds@[k as int].1 as int) == split_on(s@, '.')[k as int]);
        if !octet_at(s, a, b) {
            return false;
        }
        k = k + 1;
    }
    true
}

/// Whether `s[a..b]` is a group of one to four hexadecimal digits.
fn hex_group_at(s: &Vec<char>, a: usize, b: usize) -> (r: bool)
    requires
        a <= b <= s@.len(),
    ensures
        r == is_hex_group(s@.subrange(a as int, b as int)),
{
    let ghost p = s@.subrange(a as int, b as int);
    if b - a < 1 || b - a > 4 {
        return false;
    }
    let mut i: usize = a;
    while i < b
        invariant
            a <= i <= b <= s@.len(),
            p == s@.subrange(a as int, b as int),
            forall|j: int| 0 <= j < i - a ==> is_hex_digit(#[trigger] p[j]),
        decreases b - i,
    {
        if !hex_digit(s[i]) {
            assert(!is_hex_digit(p[i - a]));
            return false;
        }
        i = i + 1;
    }
    true
}

/// The executable form of `group_count`: the number of items in the run, and
/// whether the last of them is an IPv4 address (which stands for two groups).
fn count_groups(s: &Vec<char>, v4_tail: bool) -> (r: Option<(usize, bool)>)
    ensures
        match group_count(s@, v4_tail) {
            Some(n) => r is Some && n == r.unwrap().0 + if r.unwrap().1 { 1nat } else { 0nat },
            None => r is None,
        },
        r is Some && r.unwrap().1 ==> v4_tail,
{
    if s.len() == 0 {
        return Some((0, false));
    }
    let ghost parts = split_on(s@, ':');
    let bounds = split_bounds(s, ':');
    proof {
        lemma_split_nonempty(s@, ':');
    }
    let n = bounds.len();
    let mut k: usize = 0;
    while k + 1 < n
        invariant
            1 <= n == bounds@.len() == parts.len(),
            parts == split_on(s@, ':'),
            k + 1 <= n,
            forall|m: int|
                0 <= m < bounds@.len() ==> bounds@[m].0 <= bounds@[m].1 <= s@.len() && s@.subrange(
                    #[trigger] bounds@[m].0 as int,
                    bounds@[m].1 as int,
                ) == parts[m],
            forall|m: int| 0 <= m < k ==> is_hex_group(#[trigger] parts[m]),
        decreases n - k,
    {
        let (a, b) = bounds[k];
        assert(s@.subrange(bounds@[k as int].0 as int, bounds@[k as int].1 as int) == parts[k as int]);
        if !hex_group_at(s, a, b) {
            assert(!all_hex_groups(parts));
            assert(!all_hex_groups(parts.drop_last())) by {
                assert(parts.drop_last()[k as int] == parts[k as int]);
            }
            return None;
        }
        k = k + 1;
    }
    assert(all_hex_groups(parts.drop_last())) by {
        assert forall|m: int| 0 <= m < parts.drop_last().len() implies is_hex_group(
            #[trigger] parts.drop_last()[m],
        ) by {
            assert(parts.drop_last()[m] == parts[m]);
        }
    }
    let (a, b) = bounds[n - 1];
    assert(s@.subrange(bounds@[n - 1].0 as int, bounds@[n - 1].1 as int) == parts[n - 1]);
    if hex_group_at(s, a, b) {
        assert(all_hex_groups(parts)) by {
            assert forall|m: int| 0 <= m < parts.len() implies is_hex_group(#[trigger] parts[m]) by {
                if m < parts.len() - 1 {
                    assert(parts.drop_last()[m] == parts[m]);
                }
            }
        }
        return Some((n, false));
    }
    assert(!all_hex_groups(parts));
    if v4_tail {
        let last = sub_vec(s, a, b);
        if ipv4_chars(&last) {
            return Some((n, true));
        }
    }
    None
}

/// Whether `s` is an IPv6 address in colon-hex notation.
fn ipv6_chars(s: &Vec<char>) -> (r: bool)
    ensures
        r == is_ipv6_text(s@),
{
    let n = s.len();
    let mut i: usize = 0;
    while i + 1 < n && !(s[i] == ':' && s[i + 1] == ':')
        invariant
            n == s@.len(),
            i == 0 || i < n,
            forall|j: int| 0 <= j < i ==> !double_colon_at(s@, j),
        decreases n - i,
    {
        i = i + 1;
    }
    if i + 1 < n {
        assert(first_double_colon_at(s@, i as int));
        let head = sub_vec(s, 0, i);
        let tail = sub_vec(s, i + 2, n);
        assert(head@ == s@.take(i as int));
        assert(tail@ == s@.skip(i + 2));
        let h = count_groups(&head, false);
        let t = count_groups(&tail, true);
        let ok = match (h, t) {
            (Some((hn, _)), Some((tn, tv))) => {
                let tw: usize = if tv { 1 } else { 0 };
                hn <= 7 && tn <= 7 - hn && tw <= 7 - hn - tn
            },
            _ => false,
        };
        assert(ok == compressed_ok(s@, i as int)) by {
            reveal_with_fuel(group_count, 1);
        }
        assert(forall|k: int| first_double_colon_at(s@, k) ==> k == i) by {
            assert forall|k: int| first_double_colon_at(s@, k) implies k == i by {
                if k < i {
                    assert(!double_colon_at(s@, k));
                } else if k > i {
                    assert(!double_colon_at(s@, i as int));
                }
            }
        }
        ok
    } else {
        assert(forall|k: int| !double_colon_at(s@, k));
        match count_groups(s, true) {
            Some((c, v)) => (c == 8 && !v) || (c == 7 && v),
            None => false,
        }
    }
}

/// Whether `ip` is an IPv4 address in dotted-quad notation.
pub fn is_ipv4(ip: &str) -> (r: bool)
    ensures
        r == is_ipv4_text(ip@),
{
    let s = chars_of(ip);
    ipv4_chars(&s)
}

/// Whether `ip` is an IPv6 address in colon-hex notation.
pub fn is_ipv6(ip: &str) -> (r: bool)
    ensures
        r == is_ipv6_text(ip@),
{
    let s = chars_of(ip);
    ipv6_chars(&s)
}

/// Places `ip` in the slot of its family: `(Some(ip), None)` for IPv4,
/// `(None, Some(ip))` for IPv6, and `(None, None)` for anything else.
pub fn extract_ips(ip: &str) -> (r: (Option<&str>, Option<&str>))
    ensures
        r.0 is Some <==> is_ipv4_text(ip@),
        r.1 is Some <==> is_ipv6_text(ip@),
        r.0 is Some ==> r.0->0 == ip,
        r.1 is Some ==> r.1->0 == ip,
{
    proof {
        lemma_families_exclusive(ip@);
    }
    if is_ipv4(ip) {
        (Some(ip), None)
    } else if is_ipv6(ip) {
        (None, Some(ip))
    } else {
        (None, None)
    }
}

} // verus!
