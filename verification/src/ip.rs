//! IPv4 addresses as plain values, with a verified dotted-quad parser.

use vstd::prelude::*;

verus! {

/// An IPv4 address `a.b.c.d`, held as its four octets.
#[derive(Clone, Copy, PartialEq, Eq, Structural, Debug)]
pub struct Ipv4Addr {
    pub a: u8,
    pub b: u8,
    pub c: u8,
    pub d: u8,
}

impl Ipv4Addr {
    /// Builds the address `a.b.c.d`.
    pub fn new(a: u8, b: u8, c: u8, d: u8) -> (r: Ipv4Addr)
        ensures
            r == (Ipv4Addr { a, b, c, d }),
    {
        Ipv4Addr { a, b, c, d }
    }
}

/// A stricter limit applied when the request's IP address is in
/// `ip_addresses` (a watch list of address patterns).
#[derive(Clone, Debug)]
pub struct Ip {
    ip_addresses: Option<Vec<Ipv4Addr>>,
    limit: Option<u16>,
    window_time: Option<u16>,
}

impl Ip {
    /// The watch-listed addresses, if configured.
    pub closed spec fn spec_ip_addresses(&self) -> Option<Seq<Ipv4Addr>> {
        match self.ip_addresses {
            Some(v) => Some(v@),
            None => None,
        }
    }

    /// The unique-IP-count bound of the guard, if configured.
    pub closed spec fn spec_limit(&self) -> Option<u16> {
        self.limit
    }

    /// The IP-specific window, in seconds, if configured.
    pub closed spec fn spec_window_time(&self) -> Option<u16> {
        self.window_time
    }

    /// A policy watching the given addresses, with bound `limit` per
    /// `window_time` seconds.
    pub fn new(ip_addresses: Vec<Ipv4Addr>, limit: u16, window_time: u16) -> (r: Self)
        ensures
            r.spec_ip_addresses() == Some(ip_addresses@),
            r.spec_limit() == Some(limit),
            r.spec_window_time() == Some(window_time),
    {
        Ip { ip_addresses: Some(ip_addresses), limit: Some(limit), window_time: Some(window_time) }
    }

    /// The watch-listed addresses, if configured.
    pub fn ip_addresses(&self) -> (r: Option<Vec<Ipv4Addr>>)
        ensures
            match r {
                Some(v) => self.spec_ip_addresses() == Some(v@),
                None => self.spec_ip_addresses() is None,
            },
    {
        match &self.ip_addresses {
            Some(v) => {
                let c = v.clone();
                proof {
                    assert(c@ =~= v@);
                }
                Some(c)
            },
            None => None,
        }
    }

    /// The IP-specific window, in seconds, if configured.
    pub fn window_time(&self) -> (r: Option<u16>)
        ensures
            r == self.spec_window_time(),
    {
        self.window_time
    }

    /// The unique-IP-count bound of the guard, if configured.
    pub fn limit(&self) -> (r: Option<u16>)
        ensures
            r == self.spec_limit(),
    {
        self.limit
    }
}

/// Whether `c` is a decimal digit.
pub open spec fn is_digit(c: char) -> bool {
    48 <= c as u32 <= 57
}

/// The value of the decimal digit `c`.
pub open spec fn digit_val(c: char) -> int {
    c as u32 - 48
}

/// Whether every character of `s` is a decimal digit.
pub open spec fn all_digits(s: Seq<char>) -> bool {
    forall|i: int| 0 <= i < s.len() ==> is_digit(#[trigger] s[i])
}

/// The decimal value of the digit text `s`, most significant digit first.
pub open spec fn dec_val(s: Seq<char>) -> int
    decreases s.len(),
{
    if s.len() == 0 {
        0
    } else {
        dec_val(s.drop_last()) * 10 + digit_val(s.last())
    }
}

/// Whether `s` is the text of one octet: one to three digits, no leading
/// zero unless the octet is exactly `0`, and a value of at most 255.
pub open spec fn is_octet_text(s: Seq<char>) -> bool {
    &&& 1 <= s.len() <= 3
    &&& all_digits(s)
    &&& (s.len() > 1 ==> s[0] != '0')
    &&& dec_val(s) <= 255
}

/// Whether `s` splits into four octet texts at the dots `i < j < k`.
pub open spec fn ipv4_split_at(s: Seq<char>, i: int, j: int, k: int) -> bool {
    &&& 0 <= i < j < k < s.len()
    &&& s[i] == '.'
    &&& s[j] == '.'
    &&& s[k] == '.'
    &&& is_octet_text(s.subrange(0, i))
    &&& is_octet_text(s.subrange(i + 1, j))
    &&& is_octet_text(s.subrange(j + 1, k))
    &&& is_octet_text(s.subrange(k + 1, s.len() as int))
}

/// Whether `s` is a well-formed dotted-quad IPv4 address.
pub open spec fn is_ipv4_text(s: Seq<char>) -> bool {
    exists|i: int, j: int, k: int| ipv4_split_at(s, i, j, k)
}

/// The address denoted by `s`: its four octet values when `s` is a
/// well-formed dotted quad, nothing otherwise. The split into octets is
/// unique, so the value is determined.
pub open spec fn spec_parse_ipv4(s: Seq<char>) -> Option<Ipv4Addr> {
    if is_ipv4_text(s) {
        let (i, j, k) = choose|i: int, j: int, k: int| ipv4_split_at(s, i, j, k);
        Some(
            Ipv4Addr {
                a: dec_val(s.subrange(0, i)) as u8,
                b: dec_val(s.subrange(i + 1, j)) as u8,
                c: dec_val(s.subrange(j + 1, k)) as u8,
                d: dec_val(s.subrange(k + 1, s.len() as int)) as u8,
            },
        )
    } else {
        None
    }
}

/// A digit is never a dot, so every dot of a well-formed dotted quad is one
/// of its three separators.
proof fn lemma_split_dots_exact(s: Seq<char>, i: int, j: int, k: int, p: int)
    requires
        ipv4_split_at(s, i, j, k),
        0 <= p < s.len(),
        s[p] == '.',
    ensures
        p == i || p == j || p == k,
{
    assert('.' as u32 == 46);
    if p < i {
        assert(s.subrange(0, i)[p] == s[p]);
        assert(is_digit(s[p]));
    } else if i < p < j {
        assert(s.subrange(i + 1, j)[p - i - 1] == s[p]);
        assert(is_digit(s[p]));
    } else if j < p < k {
        assert(s.subrange(j + 1, k)[p - j - 1] == s[p]);
        assert(is_digit(s[p]));
    } else if k < p {
        assert(s.subrange(k + 1, s.len() as int)[p - k - 1] == s[p]);
        assert(is_digit(s[p]));
    }
}

/// The split of a well-formed dotted quad into four octets is unique.
proof fn lemma_ipv4_split_unique(
    s: Seq<char>,
    i1: int,
    j1: int,
    k1: int,
    i2: int,
    j2: int,
    k2: int,
)
    requires
        ipv4_split_at(s, i1, j1, k1),
        ipv4_split_at(s, i2, j2, k2),
    ensures
        i1 == i2,
        j1 == j2,
        k1 == k2,
{
    lemma_split_dots_exact(s, i1, j1, k1, i2);
    lemma_split_dots_exact(s, i1, j1, k1, j2);
    lemma_split_dots_exact(s, i1, j1, k1, k2);
    lemma_split_dots_exact(s, i2, j2, k2, i1);
    lemma_split_dots_exact(s, i2, j2, k2, j1);
    lemma_split_dots_exact(s, i2, j2, k2, k1);
}

/// Unfolds one step of `dec_val` along a growing prefix.
proof fn lemma_dec_val_take_step(s: Seq<char>, m: int)
    requires
        0 <= m < s.len(),
    ensures
        dec_val(s.take(m + 1)) == dec_val(s.take(m)) * 10 + digit_val(s[m]),
{
    assert(s.take(m + 1).drop_last() =~= s.take(m));
    assert(s.take(m + 1).last() == s[m]);
    assert(s.take(m + 1).len() == m + 1);
}

/// Parses the character range `lo..hi` of `s` as one octet.
fn parse_octet(s: &str, lo: usize, hi: usize) -> (r: Option<u8>)
    requires
        lo <= hi <= s@.len(),
    ensures
        match r {
            Some(v) => is_octet_text(s@.subrange(lo as int, hi as int)) && v == dec_val(
                s@.subrange(lo as int, hi as int),
            ),
            None => !is_octet_text(s@.subrange(lo as int, hi as int)),
        },
{
    let ghost seg = s@.subrange(lo as int, hi as int);
    let len = hi - lo;
    if len == 0 || len > 3 {
        return None;
    }
    if len > 1 && s.get_char(lo) == '0' {
        proof {
            assert(seg[0] == s@[lo as int]);
        }
        return None;
    }
    let mut val: u32 = 0;
    let mut m: usize = 0;
    proof {
        assert(seg.take(0) =~= Seq::<char>::empty());
    }
    while m < len
        invariant
            m <= len,
            lo <= hi <= s@.len(),
            len == hi - lo,
            1 <= len <= 3,
            seg == s@.subrange(lo as int, hi as int),
            val == dec_val(seg.take(m as int)),
            forall|t: int| 0 <= t < m ==> is_digit(#[trigger] seg[t]),
            val <= (if m == 0 {
                0int
            } else if m == 1 {
                9int
            } else if m == 2 {
                99int
            } else {
                999int
            }),
        decreases len - m,
    {
        let c = s.get_char(lo + m);
        proof {
            assert(seg[m as int] == s@[(lo + m) as int]);
        }
        let u = c as u32;
        if u < 48 || u > 57 {
            proof {
                assert(!is_digit(seg[m as int]));
            }
            return None;
        }
        proof {
            lemma_dec_val_take_step(seg, m as int);
        }
        val = val * 10 + (u - 48);
        m = m + 1;
    }
    proof {
        assert(seg.take(len as int) =~= seg);
    }
    if val > 255 {
        return None;
    }
    proof {
        assert(is_octet_text(seg));
    }
    Some(val as u8)
}

/// Parses a dotted-quad IPv4 address, exactly the well-formed ones.
pub fn parse_ipv4(s: &str) -> (r: Option<Ipv4Addr>)
    ensures
        r == spec_parse_ipv4(s@),
{
    let n = s.unicode_len();
    let mut dots: Vec<usize> = Vec::new();
    let mut i: usize = 0;
    while i < n
        invariant
            i <= n,
            n == s@.len(),
            forall|t: int|
                0 <= t < dots@.len() ==> 0 <= #[trigger] dots@[t] < i && s@[dots@[t] as int]
                    == '.',
            forall|p: int|
                0 <= p < i && s@[p] == '.' ==> exists|t: int|
                    0 <= t < dots@.len() && #[trigger] dots@[t] as int == p,
            forall|a: int, b: int| 0 <= a < b < dots@.len() ==> dots@[a] < dots@[b],
        decreases n - i,
    {
        let c = s.get_char(i);
        if c == '.' {
            let ghost prev = dots@;
            dots.push(i);
            proof {
                assert forall|p: int| 0 <= p < i + 1 && s@[p] == '.' implies exists|t: int|
                    0 <= t < dots@.len() && #[trigger] dots@[t] as int == p by {
                    if p == i {
                        assert(dots@[dots@.len() - 1] as int == p);
                    } else {
                        let t = choose|t: int| 0 <= t < prev.len() && #[trigger] prev[t] as int == p;
                        assert(dots@[t] as int == p);
                    }
                }
            }
        }
        i = i + 1;
    }
    if dots.len() != 3 {
        proof {
            if is_ipv4_text(s@) {
                let (di, dj, dk) = choose|di: int, dj: int, dk: int| ipv4_split_at(s@, di, dj, dk);
                let ti = choose|t: int| 0 <= t < dots@.len() && #[trigger] dots@[t] as int == di;
                let tj = choose|t: int| 0 <= t < dots@.len() && #[trigger] dots@[t] as int == dj;
                let tk = choose|t: int| 0 <= t < dots@.len() && #[trigger] dots@[t] as int == dk;
                assert(ti < tj && tj < tk) by {
                    if ti >= tj {
                        assert(dots@[tj] <= dots@[ti]);
                    }
                    if tj >= tk {
                        assert(dots@[tk] <= dots@[tj]);
                    }
                }
                assert(dots@.len() >= 3);
                assert(dots@.len() > 3);
                lemma_split_dots_exact(s@, di, dj, dk, dots@[0] as int);
                lemma_split_dots_exact(s@, di, dj, dk, dots@[1] as int);
                lemma_split_dots_exact(s@, di, dj, dk, dots@[2] as int);
                lemma_split_dots_exact(s@, di, dj, dk, dots@[3] as int);
                assert(dots@[0] < dots@[1] && dots@[1] < dots@[2] && dots@[2] < dots@[3]);
                assert(false);
            }
        }
        return None;
    }
    let d1 = dots[0];
    let d2 = dots[1];
    let d3 = dots[2];
    proof {
        assert(d1 < d2 && d2 < d3 && d3 < n);
    }
    let a = match parse_octet(s, 0, d1) {
        Some(v) => v,
        None => {
            proof {
                if is_ipv4_text(s@) {
                    lemma_no_split_when_octet_fails(s@, dots@);
                }
            }
            return None;
        },
    };
    let b = match parse_octet(s, d1 + 1, d2) {
        Some(v) => v,
        None => {
            proof {
                if is_ipv4_text(s@) {
                    lemma_no_split_when_octet_fails(s@, dots@);
                }
            }
            return None;
        },
    };
    let c = match parse_octet(s, d2 + 1, d3) {
        Some(v) => v,
        None => {
            proof {
                if is_ipv4_text(s@) {
                    lemma_no_split_when_octet_fails(s@, dots@);
                }
            }
            return None;
        },
    };
    let d = match parse_octet(s, d3 + 1, n) {
        Some(v) => v,
        None => {
            proof {
                if is_ipv4_text(s@) {
                    lemma_no_split_when_octet_fails(s@, dots@);
                }
            }
            return None;
        },
    };
    let r = Ipv4Addr { a, b, c, d };
    proof {
        assert(ipv4_split_at(s@, d1 as int, d2 as int, d3 as int));
        assert(is_ipv4_text(s@));
        let (ci, cj, ck) = choose|ci: int, cj: int, ck: int| ipv4_split_at(s@, ci, cj, ck);
        lemma_ipv4_split_unique(s@, ci, cj, ck, d1 as int, d2 as int, d3 as int);
    }
    Some(r)
}

/// When the full dot list of `s` is exactly `dots` (three entries) and a
/// well-formed split exists, the split's dots are the three listed ones.
proof fn lemma_no_split_when_octet_fails(s: Seq<char>, dots: Seq<usize>)
    requires
        dots.len() == 3,
        forall|t: int| 0 <= t < dots.len() ==> 0 <= #[trigger] dots[t] < s.len() && s[dots[t] as int] == '.',
        forall|p: int|
            0 <= p < s.len() && s[p] == '.' ==> exists|t: int|
                0 <= t < dots.len() && #[trigger] dots[t] as int == p,
        forall|a: int, b: int| 0 <= a < b < dots.len() ==> dots[a] < dots[b],
        is_ipv4_text(s),
    ensures
        ipv4_split_at(s, dots[0] as int, dots[1] as int, dots[2] as int),
{
    let (di, dj, dk) = choose|di: int, dj: int, dk: int| ipv4_split_at(s, di, dj, dk);
    lemma_split_dots_exact(s, di, dj, dk, dots[0] as int);
    lemma_split_dots_exact(s, di, dj, dk, dots[1] as int);
    lemma_split_dots_exact(s, di, dj, dk, dots[2] as int);
    let ti = choose|t: int| 0 <= t < dots.len() && #[trigger] dots[t] as int == di;
    let tj = choose|t: int| 0 <= t < dots.len() && #[trigger] dots[t] as int == dj;
    let tk = choose|t: int| 0 <= t < dots.len() && #[trigger] dots[t] as int == dk;
    assert(ti < tj && tj < tk) by {
        if ti >= tj {
            assert(dots[tj] <= dots[ti]);
        }
        if tj >= tk {
            assert(dots[tk] <= dots[tj]);
        }
    }
    assert(ti == 0 && tj == 1 && tk == 2);
    assert(dots[0] as int == di && dots[1] as int == dj && dots[2] as int == dk);
}

} // verus!
