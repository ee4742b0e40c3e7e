//! What holds of the written form of addresses: writing and resolving are
//! inverse to each other for both families, and a text either writes one
//! address or is refused as invalid.

use vstd::prelude::*;
use vstd::utf8::is_ascii_chars;
use crate::address::{
    after, all_digits, bracketed_value, decimal_text, decimal_value, digit_char, digit_value,
    first_index, first_pair, group_values, hex_char, hex_digit_value, hex_text,
    hex_value, host_of_groups, host_value, ipv6_groups, is_digit, is_hex_digit, is_hex_group,
    joined, lacks, last_index, octet_value, resolve_text, scoped_value, Host, Ipv4Host,
    Ipv6Host, ListenAddress, ResolveError,
};

verus! {

proof fn lemma_value_push(t: Seq<char>, c: char)
    ensures
        decimal_value(t.push(c)) == decimal_value(t) * 10 + digit_value(c),
{
    assert(t.push(c).drop_last() =~= t);
    assert(t.push(c).last() == c);
}

proof fn lemma_digit_char(d: nat)
    requires
        d < 10,
    ensures
        is_digit(digit_char(d)),
        digit_value(digit_char(d)) == d,
        d > 0 ==> digit_char(d) != '0',
        d == 0 ==> digit_char(d) == '0',
        digit_char(d) != '.',
        digit_char(d) != ':',
{
}

/// The digits that write a number are canonical and give the number back.
pub proof fn lemma_decimal_text(n: nat)
    ensures
        decimal_text(n).len() >= 1,
        all_digits(decimal_text(n)),
        decimal_value(decimal_text(n)) == n,
        n > 0 ==> decimal_text(n)[0] != '0',
        n < 10 ==> decimal_text(n).len() == 1,
        n < 100 ==> decimal_text(n).len() <= 2,
        n < 1000 ==> decimal_text(n).len() <= 3,
    decreases n,
{
    if n < 10 {
        lemma_digit_char(n);
        lemma_value_push(Seq::<char>::empty(), digit_char(n));
        assert(Seq::<char>::empty().push(digit_char(n)) =~= decimal_text(n));
        assert(decimal_value(Seq::<char>::empty()) == 0);
    } else {
        lemma_decimal_text(n / 10);
        lemma_digit_char(n % 10);
        let t = decimal_text(n / 10);
        lemma_value_push(t, digit_char(n % 10));
        let u = t.push(digit_char(n % 10));
        assert(u == decimal_text(n));
        assert(u[0] == t[0]);
        assert forall|i: int| 0 <= i < u.len() implies is_digit(#[trigger] u[i]) by {
            if i < t.len() {
                assert(u[i] == t[i]);
            }
        }
    }
}

proof fn lemma_value_positive(t: Seq<char>)
    requires
        t.len() >= 1,
        all_digits(t),
        t[0] != '0',
    ensures
        decimal_value(t) >= 1,
    decreases t.len(),
{
    if t.len() == 1 {
        assert(t.drop_last().len() == 0);
        assert(decimal_value(t.drop_last()) == 0);
        assert(is_digit(t[0]));
    } else {
        let p = t.drop_last();
        assert(p[0] == t[0]);
        assert forall|i: int| 0 <= i < p.len() implies is_digit(#[trigger] p[i]) by {
            assert(p[i] == t[i]);
        }
        lemma_value_positive(p);
    }
}

/// A canonical run of digits is the text of its value.
pub proof fn lemma_canonical_text(t: Seq<char>)
    requires
        t.len() >= 1,
        all_digits(t),
        t.len() > 1 ==> t[0] != '0',
    ensures
        decimal_text(decimal_value(t)) == t,
    decreases t.len(),
{
    let p = t.drop_last();
    let l = t.last();
    assert(is_digit(l));
    if t.len() == 1 {
        assert(decimal_value(p) == 0);
        assert(decimal_value(t) == digit_value(l));
        assert(digit_char(digit_value(l)) == l);
        assert(decimal_text(decimal_value(t)) =~= t);
    } else {
        assert(p[0] == t[0]);
        assert forall|i: int| 0 <= i < p.len() implies is_digit(#[trigger] p[i]) by {
            assert(p[i] == t[i]);
        }
        lemma_canonical_text(p);
        lemma_value_positive(p);
        let v = decimal_value(t);
        assert(v == decimal_value(p) * 10 + digit_value(l));
        assert(v / 10 == decimal_value(p));
        assert(v % 10 == digit_value(l));
        assert(digit_char(digit_value(l)) == l);
        assert(decimal_text(v) == decimal_text(v / 10).push(digit_char(v % 10)));
        assert(p.push(l) =~= t);
    }
}

/// The value of a prefix never exceeds the value of the whole.
pub(crate) proof fn lemma_prefix_value(t: Seq<char>, k: int)
    requires
        0 <= k <= t.len(),
    ensures
        decimal_value(t.subrange(0, k)) <= decimal_value(t),
    decreases t.len() - k,
{
    if k == t.len() {
        assert(t.subrange(0, k) =~= t);
    } else {
        lemma_prefix_value(t, k + 1);
        assert(t.subrange(0, k + 1).drop_last() =~= t.subrange(0, k));
        assert(decimal_value(t.subrange(0, k + 1)) >= decimal_value(t.subrange(0, k))) by {
            let q = t.subrange(0, k + 1);
            assert(decimal_value(q) == decimal_value(q.drop_last()) * 10 + digit_value(
                q.last(),
            ));
        }
    }
}

/// What `first_index` finds: the first occurrence at or after `from`.
pub proof fn lemma_first_index(s: Seq<char>, from: int, c: char)
    requires
        0 <= from <= s.len(),
    ensures
        from <= first_index(s, from, c) <= s.len(),
        first_index(s, from, c) < s.len() ==> s[first_index(s, from, c)] == c,
        forall|j: int| from <= j < first_index(s, from, c) ==> s[j] != c,
    decreases s.len() - from,
{
    if from < s.len() && s[from] != c {
        lemma_first_index(s, from + 1, c);
    }
}

proof fn lemma_first_index_is(s: Seq<char>, from: int, c: char, k: int)
    requires
        0 <= from <= k <= s.len(),
        k < s.len() ==> s[k] == c,
        forall|j: int| from <= j < k ==> s[j] != c,
    ensures
        first_index(s, from, c) == k,
    decreases k - from,
{
    if from < k {
        lemma_first_index_is(s, from + 1, c, k);
    }
}

/// What `last_index` finds: the last occurrence, or -1.
pub proof fn lemma_last_index(s: Seq<char>, c: char)
    ensures
        -1 <= last_index(s, c) < s.len(),
        last_index(s, c) >= 0 ==> s[last_index(s, c)] == c,
        forall|j: int| last_index(s, c) < j < s.len() ==> s[j] != c,
    decreases s.len(),
{
    if s.len() > 0 && s.last() != c {
        let p = s.drop_last();
        lemma_last_index(p, c);
        assert forall|j: int| last_index(s, c) < j < s.len() implies s[j] != c by {
            if j < p.len() {
                assert(p[j] == s[j]);
            }
        }
        if last_index(p, c) >= 0 {
            assert(p[last_index(p, c)] == s[last_index(p, c)]);
        }
    }
}

proof fn lemma_last_index_is(s: Seq<char>, c: char, k: int)
    requires
        0 <= k < s.len(),
        s[k] == c,
        forall|j: int| k < j < s.len() ==> s[j] != c,
    ensures
        last_index(s, c) == k,
    decreases s.len(),
{
    if s.last() != c {
        let p = s.drop_last();
        assert(p[k] == s[k]);
        assert forall|j: int| k < j < p.len() implies p[j] != c by {
            assert(p[j] == s[j]);
        }
        lemma_last_index_is(p, c, k);
    }
}

/// Cutting `joined(x, c, y)` at the first `c`, where `x` holds none, gives `x` and `y` back.
proof fn lemma_cut_first(x: Seq<char>, c: char, y: Seq<char>)
    requires
        lacks(x, c),
    ensures
        first_index(joined(x, c, y), 0, c) == x.len(),
        joined(x, c, y).subrange(0, x.len() as int) == x,
        after(joined(x, c, y), x.len() as int) == y,
        joined(x, c, y).len() == x.len() + 1 + y.len(),
{
    let s = joined(x, c, y);
    assert(s[x.len() as int] == c);
    assert forall|j: int| 0 <= j < x.len() implies s[j] != c by {
        assert(s[j] == x[j]);
    }
    lemma_first_index_is(s, 0, c, x.len() as int);
    assert(s.subrange(0, x.len() as int) =~= x);
    assert(after(s, x.len() as int) =~= y);
}

/// Cutting `joined(x, c, y)` at the last `c`, where `y` holds none, gives `x` and `y` back.
proof fn lemma_cut_last(x: Seq<char>, c: char, y: Seq<char>)
    requires
        lacks(y, c),
    ensures
        last_index(joined(x, c, y), c) == x.len(),
        joined(x, c, y).subrange(0, x.len() as int) == x,
        after(joined(x, c, y), x.len() as int) == y,
{
    let s = joined(x, c, y);
    assert(s[x.len() as int] == c);
    assert forall|j: int| x.len() < j < s.len() implies s[j] != c by {
        assert(s[j] == y[j - x.len() - 1]);
    }
    lemma_last_index_is(s, c, x.len() as int);
    assert(s.subrange(0, x.len() as int) =~= x);
    assert(after(s, x.len() as int) =~= y);
}

/// A text cut at an index is its two parts joined by the character at that index.
proof fn lemma_rejoin(s: Seq<char>, i: int)
    requires
        0 <= i < s.len(),
    ensures
        s == joined(s.subrange(0, i), s[i], after(s, i)),
{
    assert(s =~= joined(s.subrange(0, i), s[i], after(s, i)));
}

/// What neither part holds, nor the separator is, the joined text does not hold.
proof fn lemma_joined_lacks(x: Seq<char>, sep: char, y: Seq<char>, c: char)
    requires
        lacks(x, c),
        lacks(y, c),
        sep != c,
    ensures
        lacks(joined(x, sep, y), c),
{
    let s = joined(x, sep, y);
    assert forall|j: int| 0 <= j < s.len() implies #[trigger] s[j] != c by {
        if j < x.len() {
            assert(s[j] == x[j]);
        } else if j > x.len() {
            assert(s[j] == y[j - x.len() - 1]);
        }
    }
}

proof fn lemma_joined_ascii(x: Seq<char>, sep: char, y: Seq<char>)
    requires
        is_ascii_chars(x),
        is_ascii_chars(y),
        sep <= '\u{7f}',
    ensures
        is_ascii_chars(joined(x, sep, y)),
{
    let s = joined(x, sep, y);
    assert forall|j: int| 0 <= j < s.len() implies '\0' <= #[trigger] s[j] <= '\u{7f}' by {
        if j < x.len() {
            assert(s[j] == x[j]);
        } else if j > x.len() {
            assert(s[j] == y[j - x.len() - 1]);
        }
    }
}

/// A run of digits holds neither a dot nor a colon, and is ASCII.
proof fn lemma_digits_are_plain(t: Seq<char>)
    requires
        all_digits(t),
    ensures
        lacks(t, '.'),
        lacks(t, ':'),
        is_ascii_chars(t),
{
    assert forall|j: int| 0 <= j < t.len() implies #[trigger] t[j] != '.' by {
        assert(is_digit(t[j]));
    }
    assert forall|j: int| 0 <= j < t.len() implies #[trigger] t[j] != ':' by {
        assert(is_digit(t[j]));
    }
    assert forall|j: int| 0 <= j < t.len() implies '\0' <= #[trigger] t[j] <= '\u{7f}' by {
        assert(is_digit(t[j]));
    }
}

/// The text of an octet is read back as that octet.
proof fn lemma_octet_text(n: u8)
    ensures
        octet_value(decimal_text(n as nat)) == Some(n),
        all_digits(decimal_text(n as nat)),
{
    lemma_decimal_text(n as nat);
}

/// An octet that was read is written back as the same text.
proof fn lemma_octet_value(t: Seq<char>)
    requires
        octet_value(t) is Some,
    ensures
        decimal_text(octet_value(t).unwrap() as nat) == t,
        all_digits(t),
{
    lemma_canonical_text(t);
}

// ---------------------------------------------------------------------------
// Hosts of the first family
// ---------------------------------------------------------------------------

/// The text of a dotted host is read back as its four octets; it holds no colon
/// and is ASCII.
pub proof fn lemma_host_text_resolves(host: Ipv4Host)
    ensures
        host_value(host.host_text()) == Some((host.a, host.b, host.c, host.d)),
        lacks(host.host_text(), ':'),
        is_ascii_chars(host.host_text()),
{
    let ta = decimal_text(host.a as nat);
    let tb = decimal_text(host.b as nat);
    let tc = decimal_text(host.c as nat);
    let td = decimal_text(host.d as nat);
    lemma_octet_text(host.a);
    lemma_octet_text(host.b);
    lemma_octet_text(host.c);
    lemma_octet_text(host.d);
    lemma_digits_are_plain(ta);
    lemma_digits_are_plain(tb);
    lemma_digits_are_plain(tc);
    lemma_digits_are_plain(td);
    let r2 = joined(tc, '.', td);
    let r1 = joined(tb, '.', r2);
    let h = joined(ta, '.', r1);
    lemma_cut_first(tc, '.', td);
    lemma_cut_first(tb, '.', r2);
    lemma_cut_first(ta, '.', r1);
    lemma_joined_lacks(tc, '.', td, ':');
    lemma_joined_lacks(tb, '.', r2, ':');
    lemma_joined_lacks(ta, '.', r1, ':');
    lemma_joined_ascii(tc, '.', td);
    lemma_joined_ascii(tb, '.', r2);
    lemma_joined_ascii(ta, '.', r1);
    assert(first_index(h, 0, '.') == ta.len());
    assert(after(h, ta.len() as int) == r1);
    assert(first_index(r1, 0, '.') == tb.len());
    assert(after(r1, tb.len() as int) == r2);
    assert(first_index(r2, 0, '.') == tc.len());
    assert(after(r2, tc.len() as int) == td);
}

/// A dotted host that was read is written back as the same text.
pub proof fn lemma_resolved_host_text(h: Seq<char>)
    requires
        host_value(h) is Some,
    ensures
        ({
            let (a, b, c, d) = host_value(h).unwrap();
            (Ipv4Host { a, b, c, d }).host_text() == h
        }),
{
    let i1 = first_index(h, 0, '.');
    let r1 = after(h, i1);
    let i2 = first_index(r1, 0, '.');
    let r2 = after(r1, i2);
    let i3 = first_index(r2, 0, '.');
    lemma_first_index(h, 0, '.');
    lemma_first_index(r1, 0, '.');
    lemma_first_index(r2, 0, '.');
    lemma_octet_value(h.subrange(0, i1));
    lemma_octet_value(r1.subrange(0, i2));
    lemma_octet_value(r2.subrange(0, i3));
    lemma_octet_value(after(r2, i3));
    lemma_rejoin(h, i1);
    lemma_rejoin(r1, i2);
    lemma_rejoin(r2, i3);
}

// ---------------------------------------------------------------------------
// Hosts of the second family
// ---------------------------------------------------------------------------

proof fn lemma_hex_value_push(t: Seq<char>, c: char)
    ensures
        hex_value(t.push(c)) == hex_value(t) * 16 + hex_digit_value(c),
{
    assert(t.push(c).drop_last() =~= t);
    assert(t.push(c).last() == c);
}

proof fn lemma_hex_char(d: nat)
    requires
        d < 16,
    ensures
        is_hex_digit(hex_char(d)),
        hex_digit_value(hex_char(d)) == d,
{
}

/// The hex digits that write a group are a group and give the number back.
pub proof fn lemma_hex_text(n: nat)
    requires
        n <= 0xffff,
    ensures
        is_hex_group(hex_text(n)),
        hex_value(hex_text(n)) == n,
{
    lemma_hex_digits(n);
}

proof fn lemma_hex_digits(n: nat)
    ensures
        hex_text(n).len() >= 1,
        forall|i: int| 0 <= i < hex_text(n).len() ==> is_hex_digit(#[trigger] hex_text(n)[i]),
        hex_value(hex_text(n)) == n,
        n < 0x10 ==> hex_text(n).len() == 1,
        n < 0x100 ==> hex_text(n).len() <= 2,
        n < 0x1000 ==> hex_text(n).len() <= 3,
        n < 0x10000 ==> hex_text(n).len() <= 4,
    decreases n,
{
    if n < 16 {
        lemma_hex_char(n);
        lemma_hex_value_push(Seq::<char>::empty(), hex_char(n));
        assert(Seq::<char>::empty().push(hex_char(n)) =~= hex_text(n));
        assert(hex_value(Seq::<char>::empty()) == 0);
    } else {
        lemma_hex_digits(n / 16);
        lemma_hex_char(n % 16);
        let t = hex_text(n / 16);
        lemma_hex_value_push(t, hex_char(n % 16));
        let u = t.push(hex_char(n % 16));
        assert(u == hex_text(n));
        assert forall|i: int| 0 <= i < u.len() implies is_hex_digit(#[trigger] u[i]) by {
            if i < t.len() {
                assert(u[i] == t[i]);
            }
        }
    }
}

/// What `first_pair` finds: the first two colons in a row at or after `from`.
pub proof fn lemma_first_pair(s: Seq<char>, from: int)
    requires
        0 <= from <= s.len(),
    ensures
        from <= first_pair(s, from) <= s.len(),
        first_pair(s, from) < s.len() ==> first_pair(s, from) + 1 < s.len() && s[first_pair(
            s,
            from,
        )] == ':' && s[first_pair(s, from) + 1] == ':',
    decreases s.len() - from,
{
    if from + 1 < s.len() && !(s[from] == ':' && s[from + 1] == ':') {
        lemma_first_pair(s, from + 1);
    }
}

/// `t` holds two colons in a row nowhere.
pub open spec fn lacks_pair(t: Seq<char>) -> bool {
    forall|j: int| 0 <= j && j + 1 < t.len() ==> !(#[trigger] t[j] == ':' && t[j + 1] == ':')
}

/// `t` is fit to stand in a list: it begins with no colon, and holds neither
/// two colons in a row nor a percent sign.
pub open spec fn is_tidy(t: Seq<char>) -> bool {
    t.len() >= 1 && t[0] != ':' && lacks_pair(t) && lacks(t, '%')
}

proof fn lemma_no_pair(s: Seq<char>, from: int)
    requires
        0 <= from <= s.len(),
        lacks_pair(s),
    ensures
        first_pair(s, from) == s.len(),
    decreases s.len() - from,
{
    if from + 1 < s.len() {
        assert(!(s[from] == ':' && s[from + 1] == ':'));
        lemma_no_pair(s, from + 1);
    }
}

/// A hex group holds nothing but hex digits.
proof fn lemma_hex_group_is_plain(t: Seq<char>)
    requires
        is_hex_group(t),
    ensures
        lacks(t, ':'),
        lacks(t, '%'),
        is_ascii_chars(t),
        is_tidy(t),
{
    assert forall|j: int| 0 <= j < t.len() implies #[trigger] t[j] != ':' by {
        assert(is_hex_digit(t[j]));
    }
    assert forall|j: int| 0 <= j < t.len() implies #[trigger] t[j] != '%' by {
        assert(is_hex_digit(t[j]));
    }
    assert forall|j: int| 0 <= j < t.len() implies '\0' <= #[trigger] t[j] <= '\u{7f}' by {
        assert(is_hex_digit(t[j]));
    }
    assert(t[0] != ':');
}

/// A hex group alone is a list that writes its one group.
pub proof fn lemma_last_group(field: Seq<char>, quad: bool)
    requires
        is_hex_group(field),
    ensures
        group_values(field, quad) == Some(seq![hex_value(field) as u16]),
        is_tidy(field),
{
    lemma_hex_group_is_plain(field);
    lemma_first_index_is(field, 0, ':', field.len() as int);
}

/// A hex group and a colon before a list make a list that writes the group and
/// then the groups of the list.
pub proof fn lemma_group_before(field: Seq<char>, rest: Seq<char>, quad: bool)
    requires
        is_hex_group(field),
        is_tidy(rest),
        group_values(rest, quad) is Some,
    ensures
        group_values(joined(field, ':', rest), quad) == Some(
            seq![hex_value(field) as u16] + group_values(rest, quad).unwrap(),
        ),
        is_tidy(joined(field, ':', rest)),
{
    let text = joined(field, ':', rest);
    lemma_hex_group_is_plain(field);
    lemma_cut_first(field, ':', rest);
    lemma_joined_lacks(field, ':', rest, '%');
    assert(text[0] == field[0]);
    assert forall|j: int| 0 <= j && j + 1 < text.len() implies !(#[trigger] text[j] == ':'
        && text[j + 1] == ':') by {
        if j < field.len() {
            assert(text[j] == field[j]);
        } else if j == field.len() {
            assert(text[j + 1] == rest[0]);
        } else {
            assert(text[j] == rest[j - field.len() - 1]);
            assert(text[j + 1] == rest[j - field.len()]);
        }
    }
}

/// The text of a host of the second family is read back as that host.
pub proof fn lemma_literal_text_resolves(host: Ipv6Host)
    ensures
        bracketed_value(host.host_text()) == Some(host),
        host.host_text().len() >= 2,
        host.host_text()[0] == '[',
{
    let f0 = hex_text(host.g0 as nat);
    let f1 = hex_text(host.g1 as nat);
    let f2 = hex_text(host.g2 as nat);
    let f3 = hex_text(host.g3 as nat);
    let f4 = hex_text(host.g4 as nat);
    let f5 = hex_text(host.g5 as nat);
    let f6 = hex_text(host.g6 as nat);
    let f7 = hex_text(host.g7 as nat);
    lemma_hex_text(host.g0 as nat);
    lemma_hex_text(host.g1 as nat);
    lemma_hex_text(host.g2 as nat);
    lemma_hex_text(host.g3 as nat);
    lemma_hex_text(host.g4 as nat);
    lemma_hex_text(host.g5 as nat);
    lemma_hex_text(host.g6 as nat);
    lemma_hex_text(host.g7 as nat);
    let t7 = f7;
    let t6 = joined(f6, ':', t7);
    let t5 = joined(f5, ':', t6);
    let t4 = joined(f4, ':', t5);
    let t3 = joined(f3, ':', t4);
    let t2 = joined(f2, ':', t3);
    let t1 = joined(f1, ':', t2);
    let t0 = joined(f0, ':', t1);
    lemma_last_group(t7, true);
    lemma_group_before(f6, t7, true);
    lemma_group_before(f5, t6, true);
    lemma_group_before(f4, t5, true);
    lemma_group_before(f3, t4, true);
    lemma_group_before(f2, t3, true);
    lemma_group_before(f1, t2, true);
    lemma_group_before(f0, t1, true);
    assert(t0 == host.literal_text());
    let groups = group_values(t0, true).unwrap();
    assert(groups =~= seq![
        host.g0,
        host.g1,
        host.g2,
        host.g3,
        host.g4,
        host.g5,
        host.g6,
        host.g7,
    ]);
    lemma_no_pair(t0, 0);
    assert(ipv6_groups(t0) == Some(groups));
    assert(host_of_groups(groups, host.scope) == host);
    let body = t0 + host.scope_text();
    if host.scope == 0 {
        assert(body =~= t0);
        lemma_first_index_is(t0, 0, '%', t0.len() as int);
        assert(scoped_value(body) == Some(host));
    } else {
        let digits = decimal_text(host.scope as nat);
        lemma_decimal_text(host.scope as nat);
        assert(body =~= joined(t0, '%', digits));
        lemma_cut_first(t0, '%', digits);
        assert(scoped_value(body) == Some(host));
    }
    let h = host.host_text();
    assert(h =~= seq!['['] + body + seq![']']);
    assert(h.subrange(1, h.len() - 1) =~= body);
}

/// A list of groups is made of ASCII characters.
pub proof fn lemma_groups_are_ascii(t: Seq<char>, quad: bool)
    requires
        group_values(t, quad) is Some,
    ensures
        is_ascii_chars(t),
    decreases t.len(),
{
    let i = first_index(t, 0, ':');
    lemma_first_index(t, 0, ':');
    if i >= t.len() {
        if is_hex_group(t) {
            lemma_hex_group_is_plain(t);
        } else {
            lemma_resolved_host_text(t);
            let (a, b, c, d) = host_value(t).unwrap();
            lemma_host_text_resolves(Ipv4Host { a, b, c, d });
        }
    } else {
        let field = t.subrange(0, i);
        lemma_hex_group_is_plain(field);
        lemma_groups_are_ascii(after(t, i), quad);
        lemma_rejoin(t, i);
        lemma_joined_ascii(field, ':', after(t, i));
    }
}

/// A literal is made of ASCII characters.
pub proof fn lemma_literal_is_ascii(t: Seq<char>)
    requires
        ipv6_groups(t) is Some,
    ensures
        is_ascii_chars(t),
{
    let k = first_pair(t, 0);
    lemma_first_pair(t, 0);
    if k >= t.len() {
        lemma_groups_are_ascii(t, true);
    } else {
        let before = t.subrange(0, k);
        let behind = t.subrange(k + 2, t.len() as int);
        if before.len() > 0 {
            lemma_groups_are_ascii(before, false);
        }
        if behind.len() > 0 {
            lemma_groups_are_ascii(behind, true);
        }
        assert forall|j: int| 0 <= j < t.len() implies '\0' <= #[trigger] t[j] <= '\u{7f}' by {
            if j < k {
                assert(t[j] == before[j]);
            } else if j > k + 1 {
                assert(t[j] == behind[j - k - 2]);
            }
        }
    }
}

/// A bracketed literal is made of ASCII characters, and is no dotted host.
pub proof fn lemma_bracketed_is_plain(h: Seq<char>)
    requires
        bracketed_value(h) is Some,
    ensures
        is_ascii_chars(h),
        host_value(h) is None,
{
    let b = h.subrange(1, h.len() - 1);
    let p = first_index(b, 0, '%');
    lemma_first_index(b, 0, '%');
    if p >= b.len() {
        lemma_literal_is_ascii(b);
    } else {
        lemma_literal_is_ascii(b.subrange(0, p));
        lemma_digits_are_plain(after(b, p));
        lemma_rejoin(b, p);
        lemma_joined_ascii(b.subrange(0, p), '%', after(b, p));
    }
    assert forall|j: int| 0 <= j < h.len() implies '\0' <= #[trigger] h[j] <= '\u{7f}' by {
        if 0 < j < h.len() - 1 {
            assert(h[j] == b[j - 1]);
        }
    }
    lemma_bracket_is_no_host(h);
}

/// What begins with a bracket is no dotted host.
proof fn lemma_bracket_is_no_host(h: Seq<char>)
    requires
        h.len() >= 1,
        h[0] == '[',
    ensures
        host_value(h) is None,
{
    let i1 = first_index(h, 0, '.');
    lemma_first_index(h, 0, '.');
    if i1 < h.len() {
        let t = h.subrange(0, i1);
        assert(t[0] == h[0]);
        assert(!is_digit(t[0]));
    }
}

// ---------------------------------------------------------------------------
// Resolving and writing
// ---------------------------------------------------------------------------

/// Every text that writes an address, of either family, resolves to that address.
pub proof fn lemma_written_address_resolves(s: Seq<char>, addr: ListenAddress)
    requires
        addr.written_as(s),
    ensures
        resolve_text(s) == Ok::<ListenAddress, ResolveError>(addr),
{
    let k = last_index(s, ':');
    let h = s.subrange(0, k);
    match addr.host {
        Host::V4(host) => {
            lemma_host_text_resolves(host);
        },
        Host::V6(host) => {
            lemma_bracketed_is_plain(h);
        },
    }
}

/// The text of an address, of either family, resolves to the address: writing
/// and resolving round-trips.
pub proof fn lemma_text_resolves(addr: ListenAddress)
    ensures
        addr.written_as(addr.text()),
        resolve_text(addr.text()) == Ok::<ListenAddress, ResolveError>(addr),
{
    let h = addr.host.host_text();
    let p = decimal_text(addr.port as nat);
    lemma_decimal_text(addr.port as nat);
    lemma_digits_are_plain(p);
    lemma_cut_last(h, ':', p);
    match addr.host {
        Host::V4(host) => {
        },
        Host::V6(host) => {
            lemma_literal_text_resolves(host);
        },
    }
    lemma_written_address_resolves(addr.text(), addr);
}

/// Every text that resolves writes the address it resolves to, and the text of
/// that address resolves to the same address. A text of the first family whose
/// port is written without leading zeros is the text of its address, letter for
/// letter.
pub proof fn lemma_resolved_text(s: Seq<char>)
    requires
        resolve_text(s) is Ok,
    ensures
        resolve_text(s).unwrap().written_as(s),
        resolve_text(resolve_text(s).unwrap().text()) == resolve_text(s),
        ({
            let p = after(s, last_index(s, ':'));
            resolve_text(s).unwrap().host is V4 && (p.len() > 1 ==> p[0] != '0') ==> resolve_text(
                s,
            ).unwrap().text() == s
        }),
{
    let addr = resolve_text(s).unwrap();
    let k = last_index(s, ':');
    lemma_last_index(s, ':');
    let h = s.subrange(0, k);
    let p = after(s, k);
    lemma_text_resolves(addr);
    if host_value(h) is Some {
        lemma_resolved_host_text(h);
        lemma_rejoin(s, k);
        if p.len() > 1 ==> p[0] != '0' {
            lemma_canonical_text(p);
        }
    }
}

/// A text that writes no address of either family is refused as invalid.
pub proof fn lemma_malformed_is_refused(s: Seq<char>)
    requires
        forall|addr: ListenAddress| !#[trigger] addr.written_as(s),
    ensures
        resolve_text(s) == Err::<ListenAddress, ResolveError>(ResolveError::InvalidAddress),
{
    if resolve_text(s) is Ok {
        lemma_resolved_text(s);
        assert(resolve_text(s).unwrap().written_as(s));
    }
}

/// The texts that are refused are exactly the texts that write no address, and
/// they are refused as invalid: no text is refused for its family.
pub proof fn lemma_invalid_is_exactly_malformed(s: Seq<char>)
    ensures
        resolve_text(s) is Err <==> forall|addr: ListenAddress| !#[trigger] addr.written_as(s),
        resolve_text(s) is Err ==> resolve_text(s) == Err::<ListenAddress, ResolveError>(
            ResolveError::InvalidAddress,
        ),
{
    if forall|addr: ListenAddress| !#[trigger] addr.written_as(s) {
        lemma_malformed_is_refused(s);
    }
    if resolve_text(s) is Err {
        assert forall|addr: ListenAddress| !#[trigger] addr.written_as(s) by {
            if addr.written_as(s) {
                lemma_written_address_resolves(s, addr);
            }
        }
    }
}

/// Every text that resolves is made of ASCII characters.
pub proof fn lemma_resolvable_is_ascii(s: Seq<char>)
    requires
        resolve_text(s) is Ok,
    ensures
        is_ascii_chars(s),
{
    let k = last_index(s, ':');
    lemma_last_index(s, ':');
    let h = s.subrange(0, k);
    let p = after(s, k);
    lemma_digits_are_plain(p);
    if host_value(h) is Some {
        lemma_resolved_host_text(h);
        let (a, b, c, d) = host_value(h).unwrap();
        lemma_host_text_resolves(Ipv4Host { a, b, c, d });
    } else {
        lemma_bracketed_is_plain(h);
    }
    lemma_rejoin(s, k);
    lemma_joined_ascii(h, ':', p);
}

} // verus!
