//! IP addresses: their text form, loopback and non-public ranges.
//!
//! The text grammar is that of the standard library's `IpAddr` parser:
//! dotted-quad IPv4 without leading zeros, and IPv6 with `::` compression
//! and an optional trailing dotted-quad.

use vstd::prelude::*;
use crate::text::chars_of;

verus! {

/// An IP address: four octets, or eight 16-bit segments.
#[derive(Clone, Copy, Debug)]
pub enum Ip {
    V4([u8; 4]),
    V6([u16; 8]),
}

/// The mathematical content of an [`Ip`].
pub enum IpView {
    V4(Seq<u8>),
    V6(Seq<u16>),
}

impl View for Ip {
    type V = IpView;

    open spec fn view(&self) -> IpView {
        match self {
            Ip::V4(o) => IpView::V4(o@),
            Ip::V6(g) => IpView::V6(g@),
        }
    }
}

// ---------- the text grammar ----------

pub open spec fn is_dec_digit(c: char) -> bool {
    '0' <= c && c <= '9'
}

pub open spec fn all_dec(t: Seq<char>) -> bool {
    forall|i: int| 0 <= i < t.len() ==> is_dec_digit(#[trigger] t[i])
}

/// The value of a run of decimal digits.
pub open spec fn dec_value(t: Seq<char>) -> nat
    decreases t.len(),
{
    if t.len() == 0 {
        0
    } else {
        dec_value(t.drop_last()) * 10 + ((t.last() as u32) - ('0' as u32)) as nat
    }
}

pub open spec fn hex_digit_value(c: char) -> nat {
    if '0' <= c && c <= '9' {
        ((c as u32) - ('0' as u32)) as nat
    } else if 'a' <= c && c <= 'f' {
        ((c as u32) - ('a' as u32) + 10) as nat
    } else {
        ((c as u32) - ('A' as u32) + 10) as nat
    }
}

pub open spec fn is_hex_digit(c: char) -> bool {
    ('0' <= c && c <= '9') || ('a' <= c && c <= 'f') || ('A' <= c && c <= 'F')
}

pub open spec fn all_hex(t: Seq<char>) -> bool {
    forall|i: int| 0 <= i < t.len() ==> is_hex_digit(#[trigger] t[i])
}

/// The value of a run of hexadecimal digits.
pub open spec fn hex_value(t: Seq<char>) -> nat
    decreases t.len(),
{
    if t.len() == 0 {
        0
    } else {
        hex_value(t.drop_last()) * 16 + hex_digit_value(t.last())
    }
}

/// `s` cut at every `sep`; there is always at least one field.
pub open spec fn split(s: Seq<char>, sep: char) -> Seq<Seq<char>>
    decreases s.len(),
{
    if s.len() == 0 {
        seq![seq![]]
    } else {
        let f = split(s.drop_last(), sep);
        if s.last() == sep {
            f.push(seq![])
        } else {
            f.update(f.len() - 1, f.last().push(s.last()))
        }
    }
}

/// A decimal octet: one to three digits, no leading zero, at most 255.
pub open spec fn octet(t: Seq<char>) -> Option<u8> {
    if 1 <= t.len() <= 3 && all_dec(t) && !(t.len() > 1 && t[0] == '0') && dec_value(t)
        <= 255 {
        Some(dec_value(t) as u8)
    } else {
        None
    }
}

/// A dotted-quad IPv4 address.
pub open spec fn ipv4_text(s: Seq<char>) -> Option<Seq<u8>> {
    let f = split(s, '.');
    if f.len() == 4 && forall|i: int| 0 <= i < 4 ==> (#[trigger] octet(f[i])) is Some {
        Some(Seq::new(4, |i: int| octet(f[i])->0))
    } else {
        None
    }
}

/// An IPv6 group: one to four hexadecimal digits.
pub open spec fn h16(t: Seq<char>) -> Option<u16> {
    if 1 <= t.len() <= 4 && all_hex(t) {
        Some(hex_value(t) as u16)
    } else {
        None
    }
}

/// The groups of a colon-separated run of fields; with `allow_v4`, the
/// last field may be a dotted quad that stands for two groups.
pub open spec fn group_run(fields: Seq<Seq<char>>, allow_v4: bool) -> Option<Seq<u16>> {
    if fields.len() == 0 {
        Some(seq![])
    } else {
        let init = fields.drop_last();
        let last = fields.last();
        if forall|i: int| 0 <= i < init.len() ==> (#[trigger] h16(init[i])) is Some {
            let head = Seq::new(init.len(), |i: int| h16(init[i])->0);
            if allow_v4 && ipv4_text(last) is Some {
                let o = ipv4_text(last)->0;
                Some(
                    head + seq![
                        (o[0] as int * 256 + o[1] as int) as u16,
                        (o[2] as int * 256 + o[3] as int) as u16,
                    ],
                )
            } else if h16(last) is Some {
                Some(head.push(h16(last)->0))
            } else {
                None
            }
        } else {
            None
        }
    }
}

/// The groups of one side of `::`; an empty side has none.
pub open spec fn side_groups(part: Seq<char>, allow_v4: bool) -> Option<Seq<u16>> {
    if part.len() == 0 {
        Some(seq![])
    } else {
        group_run(split(part, ':'), allow_v4)
    }
}

pub open spec fn double_colon_at(s: Seq<char>, k: int) -> bool {
    0 <= k && k + 1 < s.len() && s[k] == ':' && s[k + 1] == ':'
}

/// `k` is where the first `::` of `s` starts.
pub open spec fn first_double_colon(s: Seq<char>, k: int) -> bool {
    double_colon_at(s, k) && forall|j: int| 0 <= j < k ==> !double_colon_at(s, j)
}

pub open spec fn zeros(n: nat) -> Seq<u16> {
    Seq::new(n, |i: int| 0u16)
}

/// An IPv6 address: eight groups, or fewer around a `::` that stands for at
/// least one zero group.
pub open spec fn ipv6_text(s: Seq<char>) -> Option<Seq<u16>> {
    if exists|k: int| first_double_colon(s, k) {
        let k = choose|k: int| first_double_colon(s, k);
        let h = side_groups(s.take(k), false);
        let t = side_groups(s.skip(k + 2), true);
        if h is Some && t is Some && h->0.len() <= 7 && t->0.len() <= 7 - h->0.len() {
            Some(h->0 + zeros((8 - h->0.len() - t->0.len()) as nat) + t->0)
        } else {
            None
        }
    } else {
        let g = side_groups(s, true);
        if g is Some && g->0.len() == 8 {
            g
        } else {
            None
        }
    }
}

/// An IP address in text form, as `str::parse::<IpAddr>` reads it.
pub open spec fn ip_text(s: Seq<char>) -> Option<IpView> {
    if ipv4_text(s) is Some {
        Some(IpView::V4(ipv4_text(s)->0))
    } else if ipv6_text(s) is Some {
        Some(IpView::V6(ipv6_text(s)->0))
    } else {
        None
    }
}

// ---------- address classes ----------

/// `127.0.0.0/8` or `::1`.
pub open spec fn ip_is_loopback(ip: IpView) -> bool {
    match ip {
        IpView::V4(o) => o[0] == 127,
        IpView::V6(g) => g[0] == 0 && g[1] == 0 && g[2] == 0 && g[3] == 0 && g[4] == 0 && g[5]
            == 0 && g[6] == 0 && g[7] == 1,
    }
}

/// Loopback, private, link-local, unspecified, broadcast, multicast,
/// documentation, shared (CGNAT, `100.64.0.0/10`), `0.0.0.0/8`, and the
/// other non-public ranges: reserved (`240.0.0.0/4`) and benchmarking
/// (`198.18.0.0/15`).
pub open spec fn v4_forbidden(o: Seq<u8>) -> bool {
    let (a, b, c, d) = (o[0], o[1], o[2], o[3]);
    ||| a == 127
    ||| a == 10
    ||| (a == 172 && 16 <= b <= 31)
    ||| (a == 192 && b == 168)
    ||| (a == 169 && b == 254)
    ||| (a == 0 && b == 0 && c == 0 && d == 0)
    ||| (a == 255 && b == 255 && c == 255 && d == 255)
    ||| (224 <= a <= 239)
    ||| (a == 192 && b == 0 && c == 2)
    ||| (a == 198 && b == 51 && c == 100)
    ||| (a == 203 && b == 0 && c == 113)
    ||| (a == 100 && 64 <= b < 128)
    ||| a == 0
    ||| a >= 240
    ||| (a == 198 && (b == 18 || b == 19))
}

/// `::ffff:a.b.c.d`.
pub open spec fn v6_is_v4_mapped(g: Seq<u16>) -> bool {
    g[0] == 0 && g[1] == 0 && g[2] == 0 && g[3] == 0 && g[4] == 0 && g[5] == 0xffff
}

/// The IPv4 address that `::ffff:a.b.c.d` maps.
pub open spec fn v6_mapped_octets(g: Seq<u16>) -> Seq<u8> {
    seq![(g[6] / 256) as u8, (g[6] % 256) as u8, (g[7] / 256) as u8, (g[7] % 256) as u8]
}

/// Loopback, unspecified, multicast (`ff00::/8`), unique local (`fc00::/7`),
/// unicast link-local (`fe80::/10`) or documentation (`2001:db8::/32`).
pub open spec fn v6_forbidden(g: Seq<u16>) -> bool {
    ||| ip_is_loopback(IpView::V6(g))
    ||| (g[0] == 0 && g[1] == 0 && g[2] == 0 && g[3] == 0 && g[4] == 0 && g[5] == 0 && g[6] == 0
        && g[7] == 0)
    ||| g[0] >= 0xff00
    ||| (0xfc00 <= g[0] <= 0xfdff)
    ||| (0xfe80 <= g[0] <= 0xfebf)
    ||| (g[0] == 0x2001 && g[1] == 0x0db8)
}

/// An address that no upstream may resolve to: an IPv4-mapped IPv6 address
/// is judged by the IPv4 address that it maps.
pub open spec fn ip_forbidden(ip: IpView) -> bool {
    match ip {
        IpView::V4(o) => v4_forbidden(o),
        IpView::V6(g) => if v6_is_v4_mapped(g) {
            v4_forbidden(v6_mapped_octets(g))
        } else {
            v6_forbidden(g)
        },
    }
}

/// The IPv4-mapped form `::ffff:a.b.c.d` of an IPv4 address.
pub open spec fn v4_mapped(o: Seq<u8>) -> Seq<u16> {
    seq![0u16, 0, 0, 0, 0, 0xffff, (o[0] as int * 256 + o[1] as int) as u16,
        (o[2] as int * 256 + o[3] as int) as u16]
}

/// An IPv4 address is forbidden exactly when its IPv4-mapped IPv6 form is.
pub proof fn lemma_mapped_forbidden_same(o: Seq<u8>)
    requires
        o.len() == 4,
    ensures
        ip_forbidden(IpView::V6(v4_mapped(o))) == ip_forbidden(IpView::V4(o)),
{
    let g = v4_mapped(o);
    assert(v6_mapped_octets(g) =~= o);
}

/// The IPv4 addresses that no upstream may resolve to are exactly these:
/// `0.0.0.0/8`, `10.0.0.0/8`, `127.0.0.0/8`, everything from `224.0.0.0`
/// up (multicast, reserved, broadcast), `100.64.0.0/10`, `169.254.0.0/16`,
/// `172.16.0.0/12`, `192.168.0.0/16`, `192.0.2.0/24`, `198.18.0.0/15`,
/// `198.51.100.0/24` and `203.0.113.0/24`; every other address is public.
pub proof fn lemma_v4_forbidden_exact(o: Seq<u8>)
    requires
        o.len() == 4,
    ensures
        ip_forbidden(IpView::V4(o)) <==> ({
            ||| o[0] == 0
            ||| o[0] == 10
            ||| o[0] == 127
            ||| o[0] >= 224
            ||| (o[0] == 100 && 64 <= o[1] && o[1] <= 127)
            ||| (o[0] == 169 && o[1] == 254)
            ||| (o[0] == 172 && 16 <= o[1] && o[1] < 32)
            ||| (o[0] == 192 && o[1] == 168)
            ||| (o[0] == 192 && o[1] == 0 && o[2] == 2)
            ||| (o[0] == 198 && (o[1] == 18 || o[1] == 19))
            ||| (o[0] == 198 && o[1] == 51 && o[2] == 100)
            ||| (o[0] == 203 && o[1] == 0 && o[2] == 113)
        }),
{
}

/// An IPv6 address that is not IPv4-mapped is forbidden exactly when it is
/// unspecified (`::`), loopback (`::1`), multicast (`ff00::/8`), unique
/// local (`fc00::/7`), link-local (`fe80::/10`) or documentation
/// (`2001:db8::/32`); every other such address is public.
pub proof fn lemma_v6_forbidden_exact(g: Seq<u16>)
    requires
        g.len() == 8,
        !(g[0] == 0 && g[1] == 0 && g[2] == 0 && g[3] == 0 && g[4] == 0 && g[5] == 0xffff),
    ensures
        ip_forbidden(IpView::V6(g)) <==> ({
            ||| (g[0] == 0 && g[1] == 0 && g[2] == 0 && g[3] == 0 && g[4] == 0 && g[5] == 0 && g[6]
                == 0 && g[7] <= 1)
            ||| g[0] >= 0xff00
            ||| (0xfc00 <= g[0] && g[0] < 0xfe00)
            ||| (0xfe80 <= g[0] && g[0] < 0xfec0)
            ||| (g[0] == 0x2001 && g[1] == 0x0db8)
        }),
{
}

/// The loopback addresses are `127.0.0.0/8` and `::1`.
pub proof fn lemma_loopback_exact(ip: IpView)
    requires
        match ip {
            IpView::V4(o) => o.len() == 4,
            IpView::V6(g) => g.len() == 8,
        },
    ensures
        ip_is_loopback(ip) <==> match ip {
            IpView::V4(o) => o[0] == 127,
            IpView::V6(g) => forall|k: int| 0 <= k < 8 ==> #[trigger] g[k] == (if k == 7 {
                1u16
            } else {
                0u16
            }),
        },
{
    if let IpView::V6(g) = ip {
        if ip_is_loopback(ip) {
            assert forall|k: int| 0 <= k < 8 implies #[trigger] g[k] == (if k == 7 {
                1u16
            } else {
                0u16
            }) by {
                if k == 0 {} else if k == 1 {} else if k == 2 {} else if k == 3 {} else if k == 4 {}
                else if k == 5 {} else if k == 6 {} else {}
            }
        } else {
            assert(g[0] == 0u16 || g[0] != 0u16);
        }
    }
}

// ---------- executable ----------

impl Ip {
    /// Whether this is a loopback address (`IpAddr::is_loopback`).
    pub fn is_loopback(&self) -> (r: bool)
        ensures
            r == ip_is_loopback(self@),
    {
        match self {
            Ip::V4(o) => o[0] == 127,
            Ip::V6(g) => g[0] == 0 && g[1] == 0 && g[2] == 0 && g[3] == 0 && g[4] == 0 && g[5]
                == 0 && g[6] == 0 && g[7] == 1,
        }
    }
}

fn v4_forbidden_exec(o: &[u8; 4]) -> (r: bool)
    ensures
        r == v4_forbidden(o@),
{
    let (a, b, c, d) = (o[0], o[1], o[2], o[3]);
    a == 127 || a == 10 || (a == 172 && 16 <= b && b <= 31) || (a == 192 && b == 168) || (a
        == 169 && b == 254) || (a == 0 && b == 0 && c == 0 && d == 0) || (a == 255 && b == 255
        && c == 255 && d == 255) || (224 <= a && a <= 239) || (a == 192 && b == 0 && c == 2) || (
    a == 198 && b == 51 && c == 100) || (a == 203 && b == 0 && c == 113) || (a == 100 && 64 <= b
        && b < 128) || a == 0 || a >= 240 || (a == 198 && (b == 18 || b == 19))
}

/// Whether an upstream may not resolve to `ip`: loopback, private,
/// link-local (cloud metadata at `169.254.x.x` among them), CGNAT, multicast,
/// unspecified and the other non-public ranges (reserved `240.0.0.0/4`,
/// benchmarking `198.18.0.0/15`, documentation).
pub fn is_forbidden_ip(ip: Ip) -> (r: bool)
    ensures
        r == ip_forbidden(ip@),
{
    match ip {
        Ip::V4(o) => v4_forbidden_exec(&o),
        Ip::V6(g) => {
            if g[0] == 0 && g[1] == 0 && g[2] == 0 && g[3] == 0 && g[4] == 0 && g[5] == 0xffff {
                let o: [u8; 4] = [
                    (g[6] / 256) as u8,
                    (g[6] % 256) as u8,
                    (g[7] / 256) as u8,
                    (g[7] % 256) as u8,
                ];
                assert(o@ =~= v6_mapped_octets(g@));
                return v4_forbidden_exec(&o);
            }
            (g[0] == 0 && g[1] == 0 && g[2] == 0 && g[3] == 0 && g[4] == 0 && g[5] == 0 && g[6]
                == 0 && g[7] == 1) || (g[0] == 0 && g[1] == 0 && g[2] == 0 && g[3] == 0 && g[4]
                == 0 && g[5] == 0 && g[6] == 0 && g[7] == 0) || g[0] >= 0xff00 || (0xfc00 <= g[0]
                && g[0] <= 0xfdff) || (0xfe80 <= g[0] && g[0] <= 0xfebf) || (g[0] == 0x2001 && g[1]
                == 0x0db8)
        },
    }
}


/// The views of a sequence of character vectors.
pub open spec fn fviews(v: Seq<Vec<char>>) -> Seq<Seq<char>> {
    v.map_values(|f: Vec<char>| f@)
}

proof fn lemma_split_nonempty(s: Seq<char>, sep: char)
    ensures
        split(s, sep).len() >= 1,
    decreases s.len(),
{
    if s.len() > 0 {
        lemma_split_nonempty(s.drop_last(), sep);
    }
}

/// `cs[from..to]` cut at every `sep`.
fn split_exec(cs: &Vec<char>, from: usize, to: usize, sep: char) -> (f: Vec<Vec<char>>)
    requires
        from <= to <= cs@.len(),
    ensures
        fviews(f@) == split(cs@.subrange(from as int, to as int), sep),
{
    let mut done: Vec<Vec<char>> = Vec::new();
    let mut cur: Vec<char> = Vec::new();
    let mut i = from;
    assert(fviews(done@).push(cur@) =~= split(cs@.subrange(from as int, from as int), sep));
    while i < to
        invariant
            from <= i <= to <= cs@.len(),
            fviews(done@).push(cur@) == split(cs@.subrange(from as int, i as int), sep),
        decreases to - i,
    {
        let c = cs[i];
        let ghost prev = cs@.subrange(from as int, i as int);
        let ghost next = cs@.subrange(from as int, i + 1);
        assert(next.drop_last() == prev);
        assert(next.last() == c);
        proof {
            lemma_split_nonempty(prev, sep);
        }
        if c == sep {
            done.push(cur);
            cur = Vec::new();
            assert(fviews(done@).push(cur@) =~= split(prev, sep).push(seq![]));
        } else {
            let ghost old_done = fviews(done@);
            let ghost old_cur = cur@;
            cur.push(c);
            assert(fviews(done@).push(cur@) =~= old_done.push(old_cur).update(
                old_done.len() as int,
                old_cur.push(c),
            ));
        }
        i += 1;
    }
    let ghost d = fviews(done@);
    let ghost cv = cur@;
    done.push(cur);
    assert(fviews(done@) =~= d.push(cv));
    done
}

proof fn lemma_dec_step(t: Seq<char>, i: int)
    requires
        0 <= i < t.len(),
    ensures
        dec_value(t.take(i + 1)) == dec_value(t.take(i)) * 10 + ((t[i] as u32) - ('0' as u32))
            as nat,
{
    assert(t.take(i + 1).drop_last() == t.take(i));
}

proof fn lemma_hex_step(t: Seq<char>, i: int)
    requires
        0 <= i < t.len(),
    ensures
        hex_value(t.take(i + 1)) == hex_value(t.take(i)) * 16 + hex_digit_value(t[i]),
{
    assert(t.take(i + 1).drop_last() == t.take(i));
}

/// A decimal octet, if `f` is one.
fn octet_exec(f: &Vec<char>) -> (r: Option<u8>)
    ensures
        r == octet(f@),
{
    if f.len() < 1 || f.len() > 3 {
        return None;
    }
    let mut v: u32 = 0;
    let mut i: usize = 0;
    while i < f.len()
        invariant
            1 <= f@.len() <= 3,
            i <= f@.len(),
            forall|j: int| 0 <= j < i ==> is_dec_digit(#[trigger] f@[j]),
            v == dec_value(f@.take(i as int)),
            i == 0 ==> v == 0,
            i <= 1 ==> v <= 9,
            i <= 2 ==> v <= 99,
            v <= 999,
        decreases f@.len() - i,
    {
        let c = f[i];
        if !('0' <= c && c <= '9') {
            assert(!all_dec(f@));
            return None;
        }
        proof {
            lemma_dec_step(f@, i as int);
        }
        v = v * 10 + ((c as u32) - ('0' as u32));
        i += 1;
    }
    assert(f@.take(f@.len() as int) == f@);
    assert(all_dec(f@));
    if f.len() > 1 && f[0] == '0' {
        return None;
    }
    if v > 255 {
        return None;
    }
    Some(v as u8)
}

/// A hexadecimal group, if `f` is one.
fn h16_exec(f: &Vec<char>) -> (r: Option<u16>)
    ensures
        r == h16(f@),
{
    if f.len() < 1 || f.len() > 4 {
        return None;
    }
    let mut v: u32 = 0;
    let mut i: usize = 0;
    while i < f.len()
        invariant
            1 <= f@.len() <= 4,
            i <= f@.len(),
            forall|j: int| 0 <= j < i ==> is_hex_digit(#[trigger] f@[j]),
            v == hex_value(f@.take(i as int)),
            i == 0 ==> v == 0,
            i <= 1 ==> v <= 15,
            i <= 2 ==> v <= 255,
            i <= 3 ==> v <= 4095,
            v <= 65535,
        decreases f@.len() - i,
    {
        let c = f[i];
        let d: u32;
        if '0' <= c && c <= '9' {
            d = (c as u32) - ('0' as u32);
        } else if 'a' <= c && c <= 'f' {
            d = (c as u32) - ('a' as u32) + 10;
        } else if 'A' <= c && c <= 'F' {
            d = (c as u32) - ('A' as u32) + 10;
        } else {
            assert(!all_hex(f@));
            return None;
        }
        proof {
            lemma_hex_step(f@, i as int);
        }
        v = v * 16 + d;
        i += 1;
    }
    assert(f@.take(f@.len() as int) == f@);
    Some(v as u16)
}

/// The octets of `cs[from..to]`, if it is a dotted-quad IPv4 address.
fn ipv4_exec(cs: &Vec<char>, from: usize, to: usize) -> (r: Option<[u8; 4]>)
    requires
        from <= to <= cs@.len(),
    ensures
        match r {
            Some(o) => ipv4_text(cs@.subrange(from as int, to as int)) == Some(o@),
            None => ipv4_text(cs@.subrange(from as int, to as int)) is None,
        },
{
    let ghost s = cs@.subrange(from as int, to as int);
    let fields = split_exec(cs, from, to, '.');
    if fields.len() != 4 {
        return None;
    }
    let a = octet_exec(&fields[0]);
    let b = octet_exec(&fields[1]);
    let c = octet_exec(&fields[2]);
    let d = octet_exec(&fields[3]);
    assert(fviews(fields@)[0] == fields@[0]@);
    assert(fviews(fields@)[1] == fields@[1]@);
    assert(fviews(fields@)[2] == fields@[2]@);
    assert(fviews(fields@)[3] == fields@[3]@);
    match (a, b, c, d) {
        (Some(a), Some(b), Some(c), Some(d)) => {
            let o = [a, b, c, d];
            let ghost f = split(s, '.');
            assert(forall|i: int| 0 <= i < 4 ==> (#[trigger] octet(f[i])) is Some) by {
                assert(octet(f[0]) is Some);
                assert(octet(f[1]) is Some);
                assert(octet(f[2]) is Some);
                assert(octet(f[3]) is Some);
            }
            assert(o@ =~= Seq::new(4, |i: int| octet(f[i])->0));
            Some(o)
        },
        _ => {
            let ghost f = split(s, '.');
            assert(!(octet(f[0]) is Some && octet(f[1]) is Some && octet(f[2]) is Some && octet(
                f[3],
            ) is Some));
            None
        },
    }
}

/// The groups of a run of fields, if it is one.
fn group_run_exec(fields: &Vec<Vec<char>>, allow_v4: bool) -> (r: Option<Vec<u16>>)
    ensures
        match r {
            Some(g) => group_run(fviews(fields@), allow_v4) == Some(g@),
            None => group_run(fviews(fields@), allow_v4) is None,
        },
{
    let ghost fv = fviews(fields@);
    if fields.len() == 0 {
        return Some(Vec::new());
    }
    let n = fields.len() - 1;
    let ghost init = fv.drop_last();
    let mut out: Vec<u16> = Vec::new();
    let mut i: usize = 0;
    while i < n
        invariant
            n == fields@.len() - 1,
            fv == fviews(fields@),
            init == fv.drop_last(),
            i <= n,
            forall|j: int| 0 <= j < i ==> (#[trigger] h16(init[j])) is Some,
            out@ == Seq::new(i as nat, |j: int| h16(init[j])->0),
        decreases n - i,
    {
        assert(init[i as int] == fields@[i as int]@);
        match h16_exec(&fields[i]) {
            Some(g) => {
                out.push(g);
                assert(out@ =~= Seq::new((i + 1) as nat, |j: int| h16(init[j])->0));
            },
            None => {
                return None;
            },
        }
        i += 1;
    }
    let last = &fields[n];
    assert(fv.last() == last@);
    assert(last@.subrange(0, last@.len() as int) == last@);
    if allow_v4 {
        if let Some(o) = ipv4_exec(last, 0, last.len()) {
            let ghost head = out@;
            out.push((o[0] as u16) * 256 + (o[1] as u16));
            out.push((o[2] as u16) * 256 + (o[3] as u16));
            assert(out@ =~= head + seq![
                (o@[0] as int * 256 + o@[1] as int) as u16,
                (o@[2] as int * 256 + o@[3] as int) as u16,
            ]);
            return Some(out);
        }
    }
    match h16_exec(last) {
        Some(g) => {
            out.push(g);
            Some(out)
        },
        None => None,
    }
}

/// The groups of `cs[from..to]` as one side of `::`.
fn side_groups_exec(cs: &Vec<char>, from: usize, to: usize, allow_v4: bool) -> (r: Option<
    Vec<u16>,
>)
    requires
        from <= to <= cs@.len(),
    ensures
        match r {
            Some(g) => side_groups(cs@.subrange(from as int, to as int), allow_v4) == Some(g@),
            None => side_groups(cs@.subrange(from as int, to as int), allow_v4) is None,
        },
{
    if from == to {
        return Some(Vec::new());
    }
    let fields = split_exec(cs, from, to, ':');
    group_run_exec(&fields, allow_v4)
}

proof fn lemma_first_double_colon_unique(s: Seq<char>, k1: int, k2: int)
    requires
        first_double_colon(s, k1),
        first_double_colon(s, k2),
    ensures
        k1 == k2,
{
    if k1 < k2 {
        assert(!double_colon_at(s, k1));
    } else if k2 < k1 {
        assert(!double_colon_at(s, k2));
    }
}

/// Eight groups in an array.
fn to_groups(v: &Vec<u16>) -> (g: [u16; 8])
    requires
        v@.len() == 8,
    ensures
        g@ == v@,
{
    let g = [v[0], v[1], v[2], v[3], v[4], v[5], v[6], v[7]];
    assert(g@ =~= v@);
    g
}

/// The groups of `cs`, if it is an IPv6 address.
fn ipv6_exec(cs: &Vec<char>) -> (r: Option<[u16; 8]>)
    ensures
        match r {
            Some(g) => ipv6_text(cs@) == Some(g@),
            None => ipv6_text(cs@) is None,
        },
{
    let ghost s = cs@;
    let len = cs.len();
    let mut k: usize = 0;
    let mut found = false;
    while len > 0 && k < len - 1
        invariant_except_break
            !found,
        invariant
            len == s.len(),
            s == cs@,
            k <= len,
            forall|j: int| 0 <= j < k ==> !double_colon_at(s, j),
        ensures
            k <= len,
            forall|j: int| 0 <= j < k ==> !double_colon_at(s, j),
            found ==> first_double_colon(s, k as int),
            !found ==> len == 0 || k >= len - 1,
        decreases len - k,
    {
        if cs[k] == ':' && cs[k + 1] == ':' {
            found = true;
            break;
        }
        k += 1;
    }
    if found {
        assert(first_double_colon(s, k as int));
        proof {
            let c = choose|k: int| first_double_colon(s, k);
            lemma_first_double_colon_unique(s, c, k as int);
        }
        assert(s.take(k as int) == s.subrange(0, k as int));
        assert(s.skip(k + 2) == s.subrange(k + 2, len as int));
        let h = side_groups_exec(cs, 0, k, false);
        let t = side_groups_exec(cs, k + 2, len, true);
        match (h, t) {
            (Some(h), Some(t)) => {
                if h.len() > 7 || t.len() > 7 - h.len() {
                    return None;
                }
                let mut out = h.clone();
                let nz = 8 - h.len() - t.len();
                let mut i: usize = 0;
                while i < nz
                    invariant
                        i <= nz,
                        out@ == h@ + zeros(i as nat),
                    decreases nz - i,
                {
                    out.push(0);
                    assert(out@ =~= h@ + zeros((i + 1) as nat));
                    i += 1;
                }
                let mut j: usize = 0;
                while j < t.len()
                    invariant
                        j <= t@.len(),
                        out@ == h@ + zeros(nz as nat) + t@.take(j as int),
                    decreases t@.len() - j,
                {
                    out.push(t[j]);
                    assert(out@ =~= h@ + zeros(nz as nat) + t@.take(j + 1));
                    j += 1;
                }
                assert(t@.take(t@.len() as int) == t@);
                Some(to_groups(&out))
            },
            _ => None,
        }
    } else {
        assert(!exists|k: int| first_double_colon(s, k)) by {
            assert forall|j: int| !first_double_colon(s, j) by {
                if first_double_colon(s, j) {
                    assert(j < k);
                }
            }
        }
        assert(s.subrange(0, len as int) == s);
        match side_groups_exec(cs, 0, len, true) {
            Some(g) => {
                if g.len() == 8 {
                    Some(to_groups(&g))
                } else {
                    None
                }
            },
            None => None,
        }
    }
}

/// Reads `s` as an IP address, as `str::parse::<IpAddr>` does.
pub fn parse_ip(s: &str) -> (r: Option<Ip>)
    ensures
        match r {
            Some(ip) => ip_text(s@) == Some(ip@),
            None => ip_text(s@) is None,
        },
{
    let cs = chars_of(s);
    assert(cs@.subrange(0, cs@.len() as int) == cs@);
    if let Some(o) = ipv4_exec(&cs, 0, cs.len()) {
        return Some(Ip::V4(o));
    }
    match ipv6_exec(&cs) {
        Some(g) => Some(Ip::V6(g)),
        None => None,
    }
}
} // verus!
