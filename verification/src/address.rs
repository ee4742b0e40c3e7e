//! Listen addresses and their written form.
//!
//! An address of the first family is written `a.b.c.d:port`: four decimal
//! octets without superfluous leading zeros, joined by dots, then a colon and
//! the decimal digits of the port. An address of the second is written
//! `[literal]:port` or `[literal%scope]:port`, where the literal is eight groups
//! of hex digits joined by colons, or fewer with `::` for the groups that are
//! zero, and may end in a dotted host for its last two groups. Every other text
//! is invalid.

pub mod laws;

use vstd::prelude::*;
use vstd::string::*;
use crate::address::laws::{
    lemma_first_index, lemma_prefix_value, lemma_resolvable_is_ascii, lemma_resolved_text,
    lemma_text_resolves,
};

verus! {

/// Why a string was not resolved to a listen address.
#[derive(Clone, Copy, Debug, PartialEq, Eq, Structural)]
pub enum ResolveError {
    /// The string writes no address.
    InvalidAddress,
    /// The host is of a network family that cannot be served. Addresses of both
    /// families resolve, so `resolve` gives this error for no text.
    UnsupportedFamily,
}

/// A host of the first family: its four octets, most significant first.
#[derive(Clone, Copy, Debug, PartialEq, Eq, Structural)]
pub struct Ipv4Host {
    pub a: u8,
    pub b: u8,
    pub c: u8,
    pub d: u8,
}

/// A host of the second family: its eight groups, most significant first, and
/// its scope, which is zero where none is given.
#[derive(Clone, Copy, Debug, PartialEq, Eq, Structural)]
pub struct Ipv6Host {
    pub g0: u16,
    pub g1: u16,
    pub g2: u16,
    pub g3: u16,
    pub g4: u16,
    pub g5: u16,
    pub g6: u16,
    pub g7: u16,
    pub scope: u32,
}

/// A host of either family.
#[derive(Clone, Copy, Debug, PartialEq, Eq, Structural)]
pub enum Host {
    V4(Ipv4Host),
    V6(Ipv6Host),
}

/// A validated host and port.
#[derive(Clone, Copy, Debug, PartialEq, Eq, Structural)]
pub struct ListenAddress {
    pub host: Host,
    pub port: u16,
}

/// What the line that reports the listen address at startup begins with.
pub const LISTENING_PREFIX: &'static str = "Server listening on ";

// ---------------------------------------------------------------------------
// The grammar
// ---------------------------------------------------------------------------

pub open spec fn is_digit(c: char) -> bool {
    '0' <= c <= '9'
}

/// The character that writes the digit `d`.
pub open spec fn digit_char(d: nat) -> char {
    ((d + 48) as u8) as char
}

/// The digit that `c` writes; zero for any other character.
pub open spec fn digit_value(c: char) -> nat {
    if is_digit(c) {
        (c as int - 48) as nat
    } else {
        0
    }
}

pub open spec fn all_digits(t: Seq<char>) -> bool {
    forall|i: int| 0 <= i < t.len() ==> is_digit(#[trigger] t[i])
}

/// The number that the digits of `t` write, most significant first.
pub open spec fn decimal_value(t: Seq<char>) -> nat
    decreases t.len(),
{
    if t.len() == 0 {
        0
    } else {
        decimal_value(t.drop_last()) * 10 + digit_value(t.last())
    }
}

/// The digits of `n` without leading zeros.
pub open spec fn decimal_text(n: nat) -> Seq<char>
    decreases n,
{
    if n < 10 {
        seq![digit_char(n)]
    } else {
        decimal_text(n / 10).push(digit_char(n % 10))
    }
}

/// The value of a non-empty run of digits, where it does not exceed `limit`.
pub open spec fn bounded_decimal(t: Seq<char>, limit: nat) -> Option<nat> {
    if t.len() >= 1 && all_digits(t) && decimal_value(t) <= limit {
        Some(decimal_value(t))
    } else {
        None
    }
}

/// An octet: one to three digits, no leading zero before another digit, at most 255.
pub open spec fn octet_value(t: Seq<char>) -> Option<u8> {
    if t.len() > 3 || (t.len() > 1 && t[0] == '0') {
        None
    } else {
        match bounded_decimal(t, 255) {
            Some(v) => Some(v as u8),
            None => None,
        }
    }
}

/// A port: one or more digits whose value is at most 65535.
pub open spec fn port_value(t: Seq<char>) -> Option<u16> {
    match bounded_decimal(t, 65535) {
        Some(v) => Some(v as u16),
        None => None,
    }
}

/// The least index at or after `from` at which `s` holds `c`; the length of `s` if there is none.
pub open spec fn first_index(s: Seq<char>, from: int, c: char) -> int
    decreases s.len() - from,
{
    if from < 0 || from >= s.len() {
        s.len() as int
    } else if s[from] == c {
        from
    } else {
        first_index(s, from + 1, c)
    }
}

/// The greatest index at which `s` holds `c`; -1 if there is none.
pub open spec fn last_index(s: Seq<char>, c: char) -> int
    decreases s.len(),
{
    if s.len() == 0 {
        -1
    } else if s.last() == c {
        s.len() - 1
    } else {
        last_index(s.drop_last(), c)
    }
}

/// `x`, the separator, then `y`.
pub open spec fn joined(x: Seq<char>, sep: char, y: Seq<char>) -> Seq<char> {
    x + seq![sep] + y
}

/// `s` holds `c` nowhere.
pub open spec fn lacks(s: Seq<char>, c: char) -> bool {
    forall|j: int| 0 <= j < s.len() ==> #[trigger] s[j] != c
}

/// What follows index `i` in `s`.
pub open spec fn after(s: Seq<char>, i: int) -> Seq<char> {
    s.subrange(i + 1, s.len() as int)
}

/// The four octets of a dotted host: the text is cut at its first three dots.
pub open spec fn host_value(h: Seq<char>) -> Option<(u8, u8, u8, u8)> {
    let i1 = first_index(h, 0, '.');
    let r1 = after(h, i1);
    let i2 = first_index(r1, 0, '.');
    let r2 = after(r1, i2);
    let i3 = first_index(r2, 0, '.');
    if i1 >= h.len() || i2 >= r1.len() || i3 >= r2.len() {
        None
    } else {
        match (
            octet_value(h.subrange(0, i1)),
            octet_value(r1.subrange(0, i2)),
            octet_value(r2.subrange(0, i3)),
            octet_value(after(r2, i3)),
        ) {
            (Some(a), Some(b), Some(c), Some(d)) => Some((a, b, c, d)),
            _ => None,
        }
    }
}

pub open spec fn is_hex_digit(c: char) -> bool {
    is_digit(c) || ('a' <= c <= 'f') || ('A' <= c <= 'F')
}

/// The character that writes the hex digit `d`, in lower case.
pub open spec fn hex_char(d: nat) -> char {
    if d < 10 {
        digit_char(d)
    } else {
        ((d + 87) as u8) as char
    }
}

/// The hex digit that `c` writes; zero for any other character.
pub open spec fn hex_digit_value(c: char) -> nat {
    if is_digit(c) {
        (c as int - 48) as nat
    } else if 'a' <= c <= 'f' {
        (c as int - 87) as nat
    } else if 'A' <= c <= 'F' {
        (c as int - 55) as nat
    } else {
        0
    }
}

/// The number that the hex digits of `t` write, most significant first.
pub open spec fn hex_value(t: Seq<char>) -> nat
    decreases t.len(),
{
    if t.len() == 0 {
        0
    } else {
        hex_value(t.drop_last()) * 16 + hex_digit_value(t.last())
    }
}

/// The hex digits of `n` without leading zeros, in lower case.
pub open spec fn hex_text(n: nat) -> Seq<char>
    decreases n,
{
    if n < 16 {
        seq![hex_char(n)]
    } else {
        hex_text(n / 16).push(hex_char(n % 16))
    }
}

/// A group of a literal: one to four hex digits.
pub open spec fn is_hex_group(t: Seq<char>) -> bool {
    1 <= t.len() <= 4 && forall|i: int| 0 <= i < t.len() ==> is_hex_digit(#[trigger] t[i])
}

/// The two groups that four octets make.
pub open spec fn groups_of_octets(a: u8, b: u8, c: u8, d: u8) -> Seq<u16> {
    seq![(a * 256 + b) as u16, (c * 256 + d) as u16]
}

/// The groups before those that follow, where any follow.
pub open spec fn prepended(groups: Seq<u16>, behind: Option<Seq<u16>>) -> Option<Seq<u16>> {
    match behind {
        Some(rest) => Some(groups + rest),
        None => None,
    }
}

/// The groups that a list of fields joined by single colons writes. Every field
/// is a hex group and writes one group; where `quad` allows it the last field
/// may be a dotted host instead, which writes two. A text that is no such list
/// writes none.
pub open spec fn group_values(t: Seq<char>, quad: bool) -> Option<Seq<u16>>
    decreases t.len(),
    via group_values_decreases
{
    let i = first_index(t, 0, ':');
    if i >= t.len() {
        if is_hex_group(t) {
            Some(seq![hex_value(t) as u16])
        } else if quad {
            match host_value(t) {
                Some((a, b, c, d)) => Some(groups_of_octets(a, b, c, d)),
                None => None,
            }
        } else {
            None
        }
    } else if is_hex_group(t.subrange(0, i)) {
        prepended(seq![hex_value(t.subrange(0, i)) as u16], group_values(after(t, i), quad))
    } else {
        None
    }
}

#[via_fn]
proof fn group_values_decreases(t: Seq<char>, quad: bool) {
    lemma_first_index(t, 0, ':');
}

/// The same for a list that may be empty.
pub open spec fn groups_written(t: Seq<char>, quad: bool) -> Option<Seq<u16>> {
    if t.len() == 0 {
        Some(Seq::empty())
    } else {
        group_values(t, quad)
    }
}

/// The least index at or after `from` at which `s` holds two colons in a row;
/// the length of `s` if there is none.
pub open spec fn first_pair(s: Seq<char>, from: int) -> int
    decreases s.len() - from,
{
    if from < 0 || from + 1 >= s.len() {
        s.len() as int
    } else if s[from] == ':' && s[from + 1] == ':' {
        from
    } else {
        first_pair(s, from + 1)
    }
}

/// So many groups that are zero.
pub open spec fn zeros(n: nat) -> Seq<u16> {
    Seq::new(n, |i: int| 0u16)
}

/// The eight groups that a literal writes. Without `::` it is a list of eight
/// groups, the last two of which may be a dotted host. With `::` it is a list of
/// groups before and a list behind, either of which may be empty; they write
/// seven groups at most together, only the list behind may end in a dotted
/// host, and the groups between them are zero.
pub open spec fn ipv6_groups(t: Seq<char>) -> Option<Seq<u16>> {
    let k = first_pair(t, 0);
    if k >= t.len() {
        match group_values(t, true) {
            Some(groups) => if groups.len() == 8 {
                Some(groups)
            } else {
                None
            },
            None => None,
        }
    } else {
        match (
            groups_written(t.subrange(0, k), false),
            groups_written(t.subrange(k + 2, t.len() as int), true),
        ) {
            (Some(before), Some(behind)) => if before.len() + behind.len() <= 7 {
                Some(before + zeros((8 - before.len() - behind.len()) as nat) + behind)
            } else {
                None
            },
            _ => None,
        }
    }
}

/// The host of eight groups and a scope.
pub open spec fn host_of_groups(groups: Seq<u16>, scope: u32) -> Ipv6Host {
    Ipv6Host {
        g0: groups[0],
        g1: groups[1],
        g2: groups[2],
        g3: groups[3],
        g4: groups[4],
        g5: groups[5],
        g6: groups[6],
        g7: groups[7],
        scope,
    }
}

/// The host that a literal writes, with or without a scope behind it: a
/// percent sign and digits whose value is at most 4294967295.
pub open spec fn scoped_value(b: Seq<char>) -> Option<Ipv6Host> {
    let p = first_index(b, 0, '%');
    if p >= b.len() {
        match ipv6_groups(b) {
            Some(groups) => Some(host_of_groups(groups, 0)),
            None => None,
        }
    } else {
        match (ipv6_groups(b.subrange(0, p)), bounded_decimal(after(b, p), 0xffff_ffff)) {
            (Some(groups), Some(scope)) => Some(host_of_groups(groups, scope as u32)),
            _ => None,
        }
    }
}

/// The host that a bracketed literal writes: `[`, the literal, `]`.
pub open spec fn bracketed_value(h: Seq<char>) -> Option<Ipv6Host> {
    if h.len() >= 2 && h[0] == '[' && h.last() == ']' {
        scoped_value(h.subrange(1, h.len() - 1))
    } else {
        None
    }
}

/// What a string resolves to. The string is cut at its last colon; what follows
/// must be a port, what precedes a dotted host or a bracketed literal.
pub open spec fn resolve_text(s: Seq<char>) -> Result<ListenAddress, ResolveError> {
    let k = last_index(s, ':');
    if k < 0 {
        Err(ResolveError::InvalidAddress)
    } else {
        match port_value(after(s, k)) {
            None => Err(ResolveError::InvalidAddress),
            Some(port) => match host_value(s.subrange(0, k)) {
                Some((a, b, c, d)) => Ok(
                    ListenAddress { host: Host::V4(Ipv4Host { a, b, c, d }), port },
                ),
                None => match bracketed_value(s.subrange(0, k)) {
                    Some(host) => Ok(ListenAddress { host: Host::V6(host), port }),
                    None => Err(ResolveError::InvalidAddress),
                },
            },
        }
    }
}

impl Ipv4Host {
    /// The host as it is written: its octets in decimal, joined by dots.
    pub open spec fn host_text(self) -> Seq<char> {
        joined(
            decimal_text(self.a as nat),
            '.',
            joined(
                decimal_text(self.b as nat),
                '.',
                joined(decimal_text(self.c as nat), '.', decimal_text(self.d as nat)),
            ),
        )
    }
}

impl Ipv6Host {
    /// The literal as it is written: all eight groups in hex, joined by colons.
    pub open spec fn literal_text(self) -> Seq<char> {
        joined(
            hex_text(self.g0 as nat),
            ':',
            joined(
                hex_text(self.g1 as nat),
                ':',
                joined(
                    hex_text(self.g2 as nat),
                    ':',
                    joined(
                        hex_text(self.g3 as nat),
                        ':',
                        joined(
                            hex_text(self.g4 as nat),
                            ':',
                            joined(
                                hex_text(self.g5 as nat),
                                ':',
                                joined(hex_text(self.g6 as nat), ':', hex_text(self.g7 as nat)),
                            ),
                        ),
                    ),
                ),
            ),
        )
    }

    /// The scope as it is written: nothing where it is zero.
    pub open spec fn scope_text(self) -> Seq<char> {
        if self.scope == 0 {
            Seq::empty()
        } else {
            seq!['%'] + decimal_text(self.scope as nat)
        }
    }

    /// The host as it is written: the literal and the scope between brackets.
    pub open spec fn host_text(self) -> Seq<char> {
        seq!['['] + self.literal_text() + self.scope_text() + seq![']']
    }
}

impl Host {
    /// The host as it is written.
    pub open spec fn host_text(self) -> Seq<char> {
        match self {
            Host::V4(host) => host.host_text(),
            Host::V6(host) => host.host_text(),
        }
    }

    /// `h` writes this host: the octets in decimal joined by dots, or a
    /// bracketed literal, in any of its forms, whose groups and scope are these.
    pub open spec fn written_as(self, h: Seq<char>) -> bool {
        match self {
            Host::V4(host) => h == host.host_text(),
            Host::V6(host) => bracketed_value(h) == Some(host),
        }
    }
}

impl ListenAddress {
    /// The address as it is written: host, colon, port.
    pub open spec fn text(self) -> Seq<char> {
        joined(self.host.host_text(), ':', decimal_text(self.port as nat))
    }

    /// `s` writes this address: the host before its last colon, and behind it
    /// digits whose value is the port (leading zeros are allowed there).
    pub open spec fn written_as(self, s: Seq<char>) -> bool {
        let k = last_index(s, ':');
        &&& k >= 0
        &&& self.host.written_as(s.subrange(0, k))
        &&& after(s, k).len() >= 1
        &&& all_digits(after(s, k))
        &&& decimal_value(after(s, k)) == self.port
    }
}

// ---------------------------------------------------------------------------
// Reading and writing
// ---------------------------------------------------------------------------

const DOT: u8 = 46;

const COLON: u8 = 58;

const OPENING_BRACKET: u8 = 91;

const CLOSING_BRACKET: u8 = 93;

const DIGIT_ZERO: u8 = 48;

const DIGIT_NINE: u8 = 57;

const UPPER_A: u8 = 65;

const UPPER_F: u8 = 70;

const LOWER_A: u8 = 97;

const LOWER_F: u8 = 102;

const PERCENT: u8 = 37;

/// The greatest scope of a literal.
const GREATEST_SCOPE: u64 = 0xffff_ffff;

fn ascii_at(text: &str, i: usize) -> (c: u8)
    requires
        text.is_ascii(),
        i < text@.len(),
    ensures
        c as int == text@[i as int] as int,
        c < 128,
{
    text.get_ascii(i)
}

fn find_first(text: &str, c: u8) -> (r: usize)
    requires
        text.is_ascii(),
        c < 128,
    ensures
        r == first_index(text@, 0, c as char),
        r <= text@.len(),
{
    let n = text.unicode_len();
    let mut i: usize = 0;
    while i < n
        invariant
            text.is_ascii(),
            n == text@.len(),
            i <= n,
            c < 128,
            first_index(text@, 0, c as char) == first_index(text@, i as int, c as char),
        decreases n - i,
    {
        if ascii_at(text, i) == c {
            return i;
        }
        i += 1;
    }
    n
}

fn find_last(text: &str, c: u8) -> (r: Option<usize>)
    requires
        text.is_ascii(),
        c < 128,
    ensures
        match r {
            Some(k) => k == last_index(text@, c as char) && k < text@.len(),
            None => last_index(text@, c as char) == -1,
        },
{
    let mut i = text.unicode_len();
    assert(text@.subrange(0, i as int) =~= text@);
    while i > 0
        invariant
            text.is_ascii(),
            i <= text@.len(),
            c < 128,
            last_index(text@, c as char) == last_index(text@.subrange(0, i as int), c as char),
        decreases i,
    {
        if ascii_at(text, i - 1) == c {
            return Some(i - 1);
        }
        assert(text@.subrange(0, i as int).drop_last() =~= text@.subrange(0, i - 1));
        i -= 1;
    }
    None
}

pub(crate) fn read_decimal(text: &str, limit: u64) -> (r: Option<u64>)
    requires
        text.is_ascii(),
        limit <= 0xffff_ffff,
    ensures
        match r {
            Some(v) => bounded_decimal(text@, limit as nat) == Some(v as nat),
            None => bounded_decimal(text@, limit as nat) is None,
        },
{
    let n = text.unicode_len();
    let mut acc: u64 = 0;
    let mut i: usize = 0;
    assert(text@.subrange(0, 0) =~= Seq::<char>::empty());
    while i < n
        invariant
            text.is_ascii(),
            n == text@.len(),
            i <= n,
            limit <= 0xffff_ffff,
            acc <= limit,
            forall|j: int| 0 <= j < i ==> is_digit(#[trigger] text@[j]),
            acc == decimal_value(text@.subrange(0, i as int)),
        decreases n - i,
    {
        let c = ascii_at(text, i);
        if c < DIGIT_ZERO || c > DIGIT_NINE {
            assert(!is_digit(text@[i as int]));
            return None;
        }
        let next = acc * 10 + (c - DIGIT_ZERO) as u64;
        proof {
            let q = text@.subrange(0, i + 1);
            assert(q.drop_last() =~= text@.subrange(0, i as int));
            assert(q.last() == text@[i as int]);
            assert(decimal_value(q) == next);
            lemma_prefix_value(text@, i + 1);
        }
        if next > limit {
            return None;
        }
        acc = next;
        i += 1;
    }
    assert(text@.subrange(0, n as int) =~= text@);
    if n == 0 {
        None
    } else {
        Some(acc)
    }
}

fn read_octet(text: &str) -> (r: Option<u8>)
    requires
        text.is_ascii(),
    ensures
        r == octet_value(text@),
{
    let n = text.unicode_len();
    if n > 3 {
        return None;
    }
    if n > 1 && ascii_at(text, 0) == DIGIT_ZERO {
        return None;
    }
    match read_decimal(text, 255) {
        Some(v) => Some(v as u8),
        None => None,
    }
}

fn read_port(text: &str) -> (r: Option<u16>)
    requires
        text.is_ascii(),
    ensures
        r == port_value(text@),
{
    match read_decimal(text, 65535) {
        Some(v) => Some(v as u16),
        None => None,
    }
}

fn read_host(text: &str) -> (r: Option<(u8, u8, u8, u8)>)
    requires
        text.is_ascii(),
    ensures
        r == host_value(text@),
{
    let n = text.unicode_len();
    let i1 = find_first(text, DOT);
    if i1 >= n {
        return None;
    }
    let r1 = text.substring_ascii(i1 + 1, n);
    let n1 = r1.unicode_len();
    let i2 = find_first(r1, DOT);
    if i2 >= n1 {
        return None;
    }
    let r2 = r1.substring_ascii(i2 + 1, n1);
    let n2 = r2.unicode_len();
    let i3 = find_first(r2, DOT);
    if i3 >= n2 {
        return None;
    }
    let a = read_octet(text.substring_ascii(0, i1));
    let b = read_octet(r1.substring_ascii(0, i2));
    let c = read_octet(r2.substring_ascii(0, i3));
    let d = read_octet(r2.substring_ascii(i3 + 1, n2));
    match (a, b, c, d) {
        (Some(a), Some(b), Some(c), Some(d)) => Some((a, b, c, d)),
        _ => None,
    }
}

fn read_hex_group(text: &str) -> (r: Option<u16>)
    requires
        text.is_ascii(),
    ensures
        match r {
            Some(v) => is_hex_group(text@) && v == hex_value(text@),
            None => !is_hex_group(text@),
        },
{
    let n = text.unicode_len();
    if n == 0 || n > 4 {
        return None;
    }
    let mut acc: u32 = 0;
    let mut i: usize = 0;
    assert(text@.subrange(0, 0) =~= Seq::<char>::empty());
    while i < n
        invariant
            text.is_ascii(),
            n == text@.len(),
            i <= n,
            1 <= n <= 4,
            forall|j: int| 0 <= j < i ==> is_hex_digit(#[trigger] text@[j]),
            acc == hex_value(text@.subrange(0, i as int)),
            i == 0 ==> acc == 0,
            i == 1 ==> acc < 0x10,
            i == 2 ==> acc < 0x100,
            i == 3 ==> acc < 0x1000,
            i == 4 ==> acc < 0x10000,
        decreases n - i,
    {
        let c = ascii_at(text, i);
        let digit: u32 = if DIGIT_ZERO <= c && c <= DIGIT_NINE {
            (c - DIGIT_ZERO) as u32
        } else if LOWER_A <= c && c <= LOWER_F {
            (c - LOWER_A) as u32 + 10
        } else if UPPER_A <= c && c <= UPPER_F {
            (c - UPPER_A) as u32 + 10
        } else {
            assert(!is_hex_digit(text@[i as int]));
            return None;
        };
        proof {
            let q = text@.subrange(0, i + 1);
            assert(q.drop_last() =~= text@.subrange(0, i as int));
            assert(q.last() == text@[i as int]);
            assert(hex_digit_value(text@[i as int]) == digit);
        }
        acc = acc * 16 + digit;
        i += 1;
    }
    assert(text@.subrange(0, n as int) =~= text@);
    Some(acc as u16)
}

fn read_groups(text: &str, quad: bool) -> (r: Option<Vec<u16>>)
    requires
        text.is_ascii(),
    ensures
        match r {
            Some(groups) => group_values(text@, quad) == Some(groups@),
            None => group_values(text@, quad) is None,
        },
{
    let mut rest = text;
    let mut done: Vec<u16> = Vec::new();
    assert(prepended(done@, group_values(rest@, quad)) == group_values(text@, quad)) by {
        if group_values(rest@, quad) is Some {
            assert(done@ + group_values(rest@, quad).unwrap() =~= group_values(
                rest@,
                quad,
            ).unwrap());
        }
    }
    loop
        invariant
            rest.is_ascii(),
            group_values(text@, quad) == prepended(done@, group_values(rest@, quad)),
        decreases rest@.len(),
    {
        let n = rest.unicode_len();
        let i = find_first(rest, COLON);
        let ghost before = done@;
        if i >= n {
            match read_hex_group(rest) {
                Some(v) => {
                    done.push(v);
                    assert(done@ =~= before + seq![v]);
                    return Some(done);
                },
                None => {},
            }
            if quad {
                match read_host(rest) {
                    Some((a, b, c, d)) => {
                        done.push((a as u16) * 256 + (b as u16));
                        done.push((c as u16) * 256 + (d as u16));
                        assert(done@ =~= before + groups_of_octets(a, b, c, d));
                        return Some(done);
                    },
                    None => {},
                }
            }
            return None;
        }
        let v = match read_hex_group(rest.substring_ascii(0, i)) {
            Some(v) => v,
            None => {
                return None;
            },
        };
        done.push(v);
        proof {
            let behind = group_values(after(rest@, i as int), quad);
            if behind is Some {
                assert(before + (seq![v] + behind.unwrap()) =~= done@ + behind.unwrap());
            }
        }
        rest = rest.substring_ascii(i + 1, n);
    }
}

fn read_written_groups(text: &str, quad: bool) -> (r: Option<Vec<u16>>)
    requires
        text.is_ascii(),
    ensures
        match r {
            Some(groups) => groups_written(text@, quad) == Some(groups@),
            None => groups_written(text@, quad) is None,
        },
{
    if text.unicode_len() == 0 {
        Some(Vec::new())
    } else {
        read_groups(text, quad)
    }
}

fn find_pair(text: &str) -> (r: usize)
    requires
        text.is_ascii(),
    ensures
        r == first_pair(text@, 0),
        r < text@.len() ==> r + 1 < text@.len(),
        r <= text@.len(),
{
    let n = text.unicode_len();
    let mut i: usize = 0;
    while i < n && i + 1 < n
        invariant
            text.is_ascii(),
            n == text@.len(),
            i <= n,
            first_pair(text@, 0) == first_pair(text@, i as int),
        decreases n - i,
    {
        if ascii_at(text, i) == COLON && ascii_at(text, i + 1) == COLON {
            return i;
        }
        i += 1;
    }
    n
}

fn read_literal(text: &str) -> (r: Option<Vec<u16>>)
    requires
        text.is_ascii(),
    ensures
        match r {
            Some(groups) => ipv6_groups(text@) == Some(groups@) && groups@.len() == 8,
            None => ipv6_groups(text@) is None,
        },
{
    let n = text.unicode_len();
    let k = find_pair(text);
    if k >= n {
        return match read_groups(text, true) {
            Some(groups) => if groups.len() == 8 {
                Some(groups)
            } else {
                None
            },
            None => None,
        };
    }
    let before = match read_written_groups(text.substring_ascii(0, k), false) {
        Some(groups) => groups,
        None => {
            return None;
        },
    };
    let behind = match read_written_groups(text.substring_ascii(k + 2, n), true) {
        Some(groups) => groups,
        None => {
            return None;
        },
    };
    if before.len() > 7 || behind.len() > 7 - before.len() {
        return None;
    }
    let gap = 8 - before.len() - behind.len();
    let mut all = before;
    let ghost front = all@;
    let mut z: usize = 0;
    assert(all@ =~= front + zeros(0));
    while z < gap
        invariant
            z <= gap,
            all@ == front + zeros(z as nat),
        decreases gap - z,
    {
        all.push(0);
        assert(all@ =~= front + zeros((z + 1) as nat));
        z += 1;
    }
    let mut j: usize = 0;
    assert(all@ =~= front + zeros(gap as nat) + behind@.subrange(0, 0));
    while j < behind.len()
        invariant
            j <= behind.len(),
            all@ == front + zeros(gap as nat) + behind@.subrange(0, j as int),
        decreases behind.len() - j,
    {
        all.push(behind[j]);
        assert(all@ =~= front + zeros(gap as nat) + behind@.subrange(0, j + 1));
        j += 1;
    }
    assert(behind@.subrange(0, behind.len() as int) =~= behind@);
    Some(all)
}

fn host_from(groups: &Vec<u16>, scope: u32) -> (r: Ipv6Host)
    requires
        groups.len() == 8,
    ensures
        r == host_of_groups(groups@, scope),
{
    Ipv6Host {
        g0: groups[0],
        g1: groups[1],
        g2: groups[2],
        g3: groups[3],
        g4: groups[4],
        g5: groups[5],
        g6: groups[6],
        g7: groups[7],
        scope,
    }
}

fn read_scoped(text: &str) -> (r: Option<Ipv6Host>)
    requires
        text.is_ascii(),
    ensures
        r == scoped_value(text@),
{
    let n = text.unicode_len();
    let p = find_first(text, PERCENT);
    if p >= n {
        match read_literal(text) {
            Some(groups) => Some(host_from(&groups, 0)),
            None => None,
        }
    } else {
        let groups = match read_literal(text.substring_ascii(0, p)) {
            Some(groups) => groups,
            None => {
                return None;
            },
        };
        match read_decimal(text.substring_ascii(p + 1, n), GREATEST_SCOPE) {
            Some(scope) => Some(host_from(&groups, scope as u32)),
            None => None,
        }
    }
}

fn read_bracketed(text: &str) -> (r: Option<Ipv6Host>)
    requires
        text.is_ascii(),
    ensures
        r == bracketed_value(text@),
{
    let n = text.unicode_len();
    if n < 2 {
        return None;
    }
    if ascii_at(text, 0) != OPENING_BRACKET || ascii_at(text, n - 1) != CLOSING_BRACKET {
        return None;
    }
    read_scoped(text.substring_ascii(1, n - 1))
}

/// Resolves a written address of either family.
///
/// Fails with `InvalidAddress` where the string writes no address.
pub fn resolve(address: &str) -> (r: Result<ListenAddress, ResolveError>)
    ensures
        r == resolve_text(address@),
        r matches Ok(addr) ==> addr.written_as(address@),
{
    if !address.is_ascii() {
        proof {
            if resolve_text(address@) is Ok {
                lemma_resolvable_is_ascii(address@);
            }
        }
        return Err(ResolveError::InvalidAddress);
    }
    let n = address.unicode_len();
    let k = match find_last(address, COLON) {
        Some(k) => k,
        None => {
            return Err(ResolveError::InvalidAddress);
        },
    };
    let host = address.substring_ascii(0, k);
    let port = match read_port(address.substring_ascii(k + 1, n)) {
        Some(port) => port,
        None => {
            return Err(ResolveError::InvalidAddress);
        },
    };
    proof {
        if resolve_text(address@) is Ok {
            lemma_resolved_text(address@);
        }
    }
    match read_host(host) {
        Some((a, b, c, d)) => Ok(ListenAddress { host: Host::V4(Ipv4Host { a, b, c, d }), port }),
        None => match read_bracketed(host) {
            Some(host) => Ok(ListenAddress { host: Host::V6(host), port }),
            None => Err(ResolveError::InvalidAddress),
        },
    }
}

fn digit_str(d: u32) -> (r: &'static str)
    requires
        d < 10,
    ensures
        r@ == seq![digit_char(d as nat)],
{
    proof {
        reveal_strlit("0");
        reveal_strlit("1");
        reveal_strlit("2");
        reveal_strlit("3");
        reveal_strlit("4");
        reveal_strlit("5");
        reveal_strlit("6");
        reveal_strlit("7");
        reveal_strlit("8");
        reveal_strlit("9");
    }
    if d == 0 {
        "0"
    } else if d == 1 {
        "1"
    } else if d == 2 {
        "2"
    } else if d == 3 {
        "3"
    } else if d == 4 {
        "4"
    } else if d == 5 {
        "5"
    } else if d == 6 {
        "6"
    } else if d == 7 {
        "7"
    } else if d == 8 {
        "8"
    } else {
        "9"
    }
}

fn hex_str(d: u32) -> (r: &'static str)
    requires
        d < 16,
    ensures
        r@ == seq![hex_char(d as nat)],
{
    proof {
        reveal_strlit("a");
        reveal_strlit("b");
        reveal_strlit("c");
        reveal_strlit("d");
        reveal_strlit("e");
        reveal_strlit("f");
    }
    if d < 10 {
        digit_str(d)
    } else if d == 10 {
        "a"
    } else if d == 11 {
        "b"
    } else if d == 12 {
        "c"
    } else if d == 13 {
        "d"
    } else if d == 14 {
        "e"
    } else {
        "f"
    }
}

fn push_decimal(out: &mut String, n: u32)
    ensures
        final(out)@ == old(out)@ + decimal_text(n as nat),
    decreases n,
{
    if n >= 10 {
        push_decimal(out, n / 10);
    }
    out.append(digit_str(n % 10));
}

fn push_hex(out: &mut String, n: u32)
    ensures
        final(out)@ == old(out)@ + hex_text(n as nat),
    decreases n,
{
    if n >= 16 {
        push_hex(out, n / 16);
    }
    out.append(hex_str(n % 16));
}

impl Ipv4Host {
    /// The four octets, most significant first.
    pub fn octets(&self) -> (r: [u8; 4])
        ensures
            r@ == seq![self.a, self.b, self.c, self.d],
    {
        [self.a, self.b, self.c, self.d]
    }

    fn push_text(&self, out: &mut String)
        ensures
            final(out)@ == old(out)@ + self.host_text(),
    {
        push_decimal(out, self.a as u32);
        out.append(".");
        push_decimal(out, self.b as u32);
        out.append(".");
        push_decimal(out, self.c as u32);
        out.append(".");
        push_decimal(out, self.d as u32);
        proof {
            reveal_strlit(".");
            assert(out@ =~= old(out)@ + self.host_text());
        }
    }
}

impl Ipv6Host {
    /// The eight groups, most significant first.
    pub fn groups(&self) -> (r: [u16; 8])
        ensures
            r@ == seq![
                self.g0,
                self.g1,
                self.g2,
                self.g3,
                self.g4,
                self.g5,
                self.g6,
                self.g7,
            ],
    {
        [self.g0, self.g1, self.g2, self.g3, self.g4, self.g5, self.g6, self.g7]
    }

    fn push_text(&self, out: &mut String)
        ensures
            final(out)@ == old(out)@ + self.host_text(),
    {
        out.append("[");
        push_hex(out, self.g0 as u32);
        out.append(":");
        push_hex(out, self.g1 as u32);
        out.append(":");
        push_hex(out, self.g2 as u32);
        out.append(":");
        push_hex(out, self.g3 as u32);
        out.append(":");
        push_hex(out, self.g4 as u32);
        out.append(":");
        push_hex(out, self.g5 as u32);
        out.append(":");
        push_hex(out, self.g6 as u32);
        out.append(":");
        push_hex(out, self.g7 as u32);
        proof {
            reveal_strlit("[");
            reveal_strlit(":");
            assert(out@ =~= old(out)@ + seq!['['] + self.literal_text());
        }
        if self.scope != 0 {
            out.append("%");
            push_decimal(out, self.scope);
        }
        out.append("]");
        proof {
            reveal_strlit("%");
            reveal_strlit("]");
            assert(out@ =~= old(out)@ + self.host_text());
        }
    }
}

impl ListenAddress {
    /// The address of the first family with the given octets and port.
    pub fn new(a: u8, b: u8, c: u8, d: u8, port: u16) -> (r: Self)
        ensures
            r == (ListenAddress { host: Host::V4(Ipv4Host { a, b, c, d }), port }),
    {
        ListenAddress { host: Host::V4(Ipv4Host { a, b, c, d }), port }
    }

    /// The address with the given host and port.
    pub fn with_host(host: Host, port: u16) -> (r: Self)
        ensures
            r == (ListenAddress { host, port }),
    {
        ListenAddress { host, port }
    }

    /// The line that reports the address at startup.
    pub fn listening_line(&self) -> (r: String)
        ensures
            r@ == LISTENING_PREFIX@ + self.text(),
    {
        let mut line = String::from_str(LISTENING_PREFIX);
        let text = self.to_text();
        line.append(text.as_str());
        line
    }

    /// Writes the address: `resolve` reads the result back as this address.
    pub fn to_text(&self) -> (r: String)
        ensures
            r@ == self.text(),
            resolve_text(r@) == Ok::<ListenAddress, ResolveError>(*self),
    {
        let mut out = String::new();
        match self.host {
            Host::V4(host) => host.push_text(&mut out),
            Host::V6(host) => host.push_text(&mut out),
        }
        out.append(":");
        push_decimal(&mut out, self.port as u32);
        proof {
            reveal_strlit(":");
            assert(out@ =~= self.text());
            lemma_text_resolves(*self);
        }
        out
    }
}

} // verus!
