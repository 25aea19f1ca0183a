//! Resolution of the client address from an `X-Forwarded-For` chain.
//!
//! The chain lists the first client first and the nearest proxy last. Only
//! entries appended by proxies the operator trusts may be skipped, so the scan
//! starts at the near end and stops at the first entry that is not trusted.
use vstd::prelude::*;
use crate::text::{chars_of, split_bounds, split_on, trim_bounds, trimmed};

verus! {

/// The entries of a forwarding chain: its comma-separated pieces, trimmed.
pub open spec fn forwarded_entries(h: Seq<char>) -> Seq<Seq<char>> {
    split_on(h, ',').map_values(|p: Seq<char>| trimmed(p))
}

/// The trusted proxies as character sequences.
pub open spec fn proxy_view(t: Seq<&str>) -> Seq<Seq<char>> {
    t.map_values(|x: &str| x@)
}

/// The last entry of `entries` that is not trusted, or `fallback` where all are.
pub open spec fn last_untrusted(
    entries: Seq<Seq<char>>,
    fallback: Seq<char>,
    trusted: Seq<Seq<char>>,
) -> Seq<char>
    decreases entries.len(),
{
    if entries.len() == 0 {
        fallback
    } else if !trusted.contains(entries.last()) {
        entries.last()
    } else {
        last_untrusted(entries.drop_last(), fallback, trusted)
    }
}

/// The client address of a request whose forwarding chain is `h`: `fallback`
/// where the chain is empty (a single empty entry), else the last entry that
/// is not a trusted proxy, else `fallback`.
pub open spec fn resolve_client_ip(
    h: Seq<char>,
    fallback: Seq<char>,
    trusted: Seq<Seq<char>>,
) -> Seq<char> {
    let e = forwarded_entries(h);
    if e == seq![Seq::<char>::empty()] {
        fallback
    } else {
        last_untrusted(e, fallback, trusted)
    }
}

proof fn lemma_last_untrusted(e: Seq<Seq<char>>, fallback: Seq<char>, trusted: Seq<Seq<char>>)
    ensures
        (forall|i: int| 0 <= i < e.len() ==> trusted.contains(#[trigger] e[i])) ==> last_untrusted(
            e,
            fallback,
            trusted,
        ) == fallback,
        !(forall|i: int| 0 <= i < e.len() ==> trusted.contains(#[trigger] e[i])) ==> exists|i: int|
            0 <= i < e.len() && last_untrusted(e, fallback, trusted) == e[i] && !trusted.contains(
                e[i],
            ) && forall|j: int| i < j < e.len() ==> trusted.contains(#[trigger] e[j]),
    decreases e.len(),
{
    if e.len() > 0 {
        let init = e.drop_last();
        lemma_last_untrusted(init, fallback, trusted);
        if trusted.contains(e.last()) {
            if !(forall|i: int| 0 <= i < e.len() ==> trusted.contains(#[trigger] e[i])) {
                assert(!(forall|i: int| 0 <= i < init.len() ==> trusted.contains(#[trigger] init[i])))
                    by {
                    let i = choose|i: int| 0 <= i < e.len() && !trusted.contains(#[trigger] e[i]);
                    assert(init[i] == e[i]);
                }
                let i = choose|i: int|
                    0 <= i < init.len() && last_untrusted(init, fallback, trusted) == init[i]
                        && !trusted.contains(init[i]) && forall|j: int|
                        i < j < init.len() ==> trusted.contains(#[trigger] init[j]);
                assert(e[i] == init[i]);
                assert forall|j: int| i < j < e.len() implies trusted.contains(#[trigger] e[j]) by {
                    if j < init.len() {
                        assert(init[j] == e[j]);
                    }
                }
            } else {
                assert forall|i: int| 0 <= i < init.len() implies trusted.contains(
                    #[trigger] init[i],
                ) by {
                    assert(init[i] == e[i]);
                }
            }
        } else {
            assert(e[e.len() - 1] == e.last());
        }
    }
}

/// The resolved address is the fallback where the chain is empty or every
/// entry is trusted; otherwise it is an entry of the chain, not trusted, with
/// only trusted entries after it.
pub proof fn lemma_resolved_is_entry_or_fallback(
    h: Seq<char>,
    fallback: Seq<char>,
    trusted: Seq<Seq<char>>,
)
    ensures
        ({
            let e = forwarded_entries(h);
            let r = resolve_client_ip(h, fallback, trusted);
            if e == seq![Seq::<char>::empty()] || forall|i: int|
                0 <= i < e.len() ==> trusted.contains(#[trigger] e[i]) {
                r == fallback
            } else {
                exists|i: int|
                    0 <= i < e.len() && r == e[i] && !trusted.contains(e[i]) && forall|j: int|
                        i < j < e.len() ==> trusted.contains(#[trigger] e[j])
            }
        }),
{
    lemma_last_untrusted(forwarded_entries(h), fallback, trusted);
}

/// Whether `t` holds exactly the characters `s[a..b]`.
fn same_chars(t: &str, s: &Vec<char>, a: usize, b: usize) -> (r: bool)
    requires
        a <= b <= s@.len(),
    ensures
        r == (t@ == s@.subrange(a as int, b as int)),
{
    let tv = chars_of(t);
    if tv.len() != b - a {
        return false;
    }
    let mut i: usize = 0;
    while i < tv.len()
        invariant
            tv@ == t@,
            tv@.len() == b - a,
            a <= b <= s@.len(),
            forall|j: int| 0 <= j < i ==> tv@[j] == s@[a + j],
        decreases tv@.len() - i,
    {
        if tv[i] != s[a + i] {
            assert(t@[i as int] != s@.subrange(a as int, b as int)[i as int]);
            return false;
        }
        i = i + 1;
    }
    assert(t@ =~= s@.subrange(a as int, b as int));
    true
}

/// Whether `s[a..b]` is one of the trusted proxies.
fn is_trusted(s: &Vec<char>, a: usize, b: usize, trusted_proxies: &[&str]) -> (r: bool)
    requires
        a <= b <= s@.len(),
    ensures
        r == proxy_view(trusted_proxies@).contains(s@.subrange(a as int, b as int)),
{
    let ghost pv = proxy_view(trusted_proxies@);
    let mut j: usize = 0;
    while j < trusted_proxies.len()
        invariant
            a <= b <= s@.len(),
            pv == proxy_view(trusted_proxies@),
            j <= trusted_proxies@.len(),
            forall|m: int| 0 <= m < j ==> pv[m] != s@.subrange(a as int, b as int),
        decreases trusted_proxies@.len() - j,
    {
        if same_chars(trusted_proxies[j], s, a, b) {
            assert(pv[j as int] == s@.subrange(a as int, b as int));
            return true;
        }
        j = j + 1;
    }
    false
}

/// The client address: the last entry of the forwarding chain
/// `x_forwarded_for` that is not among `trusted_proxies`, or `source_ip`
/// where the chain is empty or holds trusted proxies only.
pub fn get_ip<'a>(
    x_forwarded_for: &'a str,
    source_ip: &'a str,
    trusted_proxies: &'a [&'a str],
) -> (r: &'a str)
    ensures
        r@ == resolve_client_ip(x_forwarded_for@, source_ip@, proxy_view(trusted_proxies@)),
{
    let ghost e = forwarded_entries(x_forwarded_for@);
    let ghost tv = proxy_view(trusted_proxies@);
    let s = chars_of(x_forwarded_for);
    let bounds = split_bounds(&s, ',');
    assert(e.len() == bounds@.len());
    assert forall|k: int| 0 <= k < bounds@.len() implies e[k] == trimmed(
        s@.subrange(bounds@[k].0 as int, bounds@[k].1 as int),
    ) by {
        assert(s@.subrange(bounds@[k].0 as int, bounds@[k].1 as int) == split_on(s@, ',')[k]);
    }
    if bounds.len() == 1 {
        let (a, b) = trim_bounds(&s, bounds[0].0, bounds[0].1);
        if a == b {
            assert(e =~= seq![Seq::<char>::empty()]) by {
                assert(e[0] =~= Seq::<char>::empty());
            }
            return source_ip;
        }
        assert(e[0].len() > 0);
    }
    assert(e != seq![Seq::<char>::empty()]) by {
        if bounds@.len() == 1 {
            assert(e[0] != Seq::<char>::empty());
        }
    }
    let mut k: usize = bounds.len();
    assert(e.take(k as int) =~= e);
    while k > 0
        invariant
            k <= bounds@.len() == e.len(),
            s@ == x_forwarded_for@,
            e == forwarded_entries(x_forwarded_for@),
            tv == proxy_view(trusted_proxies@),
            e != seq![Seq::<char>::empty()],
            forall|m: int|
                0 <= m < bounds@.len() ==> (#[trigger] bounds@[m]).0 <= bounds@[m].1 <= s@.len(),
            forall|m: int|
                0 <= m < bounds@.len() ==> e[m] == trimmed(
                    #[trigger] s@.subrange(bounds@[m].0 as int, bounds@[m].1 as int),
                ),
            last_untrusted(e.take(k as int), source_ip@, tv) == resolve_client_ip(
                x_forwarded_for@,
                source_ip@,
                tv,
            ),
        decreases k,
    {
        let (a0, b0) = bounds[k - 1];
        assert(e[k - 1] == trimmed(s@.subrange(a0 as int, b0 as int)));
        let (a, b) = trim_bounds(&s, a0, b0);
        assert(e.take(k as int).last() == e[k - 1]);
        assert(e.take(k as int).drop_last() =~= e.take(k - 1));
        if !is_trusted(&s, a, b, trusted_proxies) {
            return x_forwarded_for.substring_char(a, b);
        }
        k = k - 1;
    }
    source_ip
}

} // verus!
