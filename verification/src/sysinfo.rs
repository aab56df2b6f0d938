//! Host telemetry: turning the text of the kernel's pseudo-files into the
//! single-byte figures of a [`SysInfo`] snapshot.
//!
//! The runtime reads the files and hands their bytes in; everything from
//! tokenizing to the scaled fractions is computed and verified here.  Where
//! the kernel hands back something unreadable, the sampler yields nothing
//! rather than failing.

use vstd::prelude::*;

use crate::bytes::copy_bytes;
use crate::messages::SysInfo;

verus! {

/// ASCII whitespace, as the token separators of the pseudo-files.
pub open spec fn is_space(c: u8) -> bool {
    c == 32 || (9 <= c && c <= 13)
}

/// The length of the leading run of non-space bytes.
pub open spec fn token_len(s: Seq<u8>) -> nat
    decreases s.len(),
{
    if s.len() == 0 || is_space(s.first()) {
        0
    } else {
        (1 + token_len(s.drop_first())) as nat
    }
}

proof fn lemma_token_len_le(s: Seq<u8>)
    ensures
        token_len(s) <= s.len(),
    decreases s.len(),
{
    if s.len() != 0 && !is_space(s.first()) {
        lemma_token_len_le(s.drop_first());
    }
}

/// The whitespace-separated tokens of a byte string, in order.
pub open spec fn tokens_of(s: Seq<u8>) -> Seq<Seq<u8>>
    decreases s.len(),
    via tokens_of_decreases
{
    if s.len() == 0 {
        Seq::<Seq<u8>>::empty()
    } else if is_space(s.first()) {
        tokens_of(s.drop_first())
    } else {
        seq![s.take(token_len(s) as int)] + tokens_of(s.skip(token_len(s) as int))
    }
}

#[via_fn]
proof fn tokens_of_decreases(s: Seq<u8>) {
    lemma_token_len_le(s);
    if s.len() != 0 && !is_space(s.first()) {
        assert(token_len(s) >= 1);
    }
}

/// Where the leading token of `u` ends: at the first space, or at the end.
proof fn lemma_token_len_at(u: Seq<u8>, m: int)
    requires
        0 <= m <= u.len(),
        forall|k: int| 0 <= k < m ==> !is_space(#[trigger] u[k]),
        m == u.len() || is_space(u[m]),
    ensures
        token_len(u) == m,
    decreases m,
{
    if m == 0 {
    } else {
        assert(!is_space(u[0]));
        let v = u.drop_first();
        assert(forall|k: int| 0 <= k < m - 1 ==> !is_space(#[trigger] v[k])) by {
            assert(forall|k: int| 0 <= k < v.len() ==> v[k] == u[k + 1]);
        };
        assert(m - 1 == v.len() || is_space(v[m - 1]));
        lemma_token_len_at(v, m - 1);
    }
}

fn is_space_b(c: u8) -> (r: bool)
    ensures
        r == is_space(c),
{
    c == 32 || (c >= 9 && c <= 13)
}

/// Split a byte string into its whitespace-separated tokens.
pub fn tokenize(s: &[u8]) -> (r: Vec<Vec<u8>>)
    ensures
        r.deep_view() == tokens_of(s@),
{
    let n = s.len();
    let mut toks: Vec<Vec<u8>> = Vec::new();
    let mut i: usize = 0;
    proof {
        assert(s@.skip(0) =~= s@);
        assert(toks.deep_view() + tokens_of(s@) =~= tokens_of(s@));
    }
    while i < n
        invariant
            i <= n,
            n == s@.len(),
            tokens_of(s@) == toks.deep_view() + tokens_of(s@.skip(i as int)),
        decreases n - i,
    {
        let ghost dv = toks.deep_view();
        if is_space_b(s[i]) {
            proof {
                assert(s@.skip(i as int).drop_first() =~= s@.skip(i + 1));
            }
            i = i + 1;
        } else {
            let start = i;
            let mut j = i;
            while j < n && !is_space_b(s[j])
                invariant
                    i <= j <= n,
                    n == s@.len(),
                    forall|k: int| i <= k < j ==> !is_space(#[trigger] s@[k]),
                decreases n - j,
            {
                j = j + 1;
            }
            let t = copy_bytes(&s[start..j]);
            toks.push(t);
            proof {
                let u = s@.skip(i as int);
                assert(forall|k: int| 0 <= k < j - i ==> !is_space(#[trigger] u[k])) by {
                    assert(forall|k: int| 0 <= k < u.len() ==> u[k] == s@[k + i]);
                };
                assert(j - i == u.len() || is_space(u[j - i]));
                lemma_token_len_at(u, j - i);
                assert(u.take(j - i) =~= s@.subrange(start as int, j as int));
                assert(u.skip(j - i) =~= s@.skip(j as int));
                assert(toks.deep_view() =~~= dv.push(s@.subrange(start as int, j as int)));
                assert(tokens_of(u) == seq![u.take(j - i)] + tokens_of(u.skip(j - i)));
                assert(toks.deep_view() + tokens_of(s@.skip(j as int)) =~~= dv + tokens_of(u));
            }
            i = j;
        }
    }
    proof {
        assert(s@.skip(n as int) =~= Seq::<u8>::empty());
        assert(toks.deep_view() + tokens_of(s@.skip(n as int)) =~~= toks.deep_view());
    }
    toks
}

/// A non-empty, all-decimal-digits token.
pub open spec fn all_digits(t: Seq<u8>) -> bool {
    t.len() > 0 && forall|i: int| 0 <= i < t.len() ==> 48 <= #[trigger] t[i] <= 57
}

/// The number a digit string denotes.
pub open spec fn digits_val(t: Seq<u8>) -> nat
    decreases t.len(),
{
    if t.len() == 0 {
        0
    } else {
        (digits_val(t.drop_last()) * 10 + (t.last() - 48)) as nat
    }
}

/// What parsing a token as an unsigned decimal number yields: its value, if
/// it is all digits and fits.
pub open spec fn parse_u64_spec(t: Seq<u8>) -> Option<u64> {
    if all_digits(t) && digits_val(t) <= u64::MAX {
        Some(digits_val(t) as u64)
    } else {
        None
    }
}

/// A longer digit string never denotes a smaller number.
proof fn lemma_digits_val_mono(t: Seq<u8>, i: int)
    requires
        all_digits(t),
        0 <= i <= t.len(),
    ensures
        digits_val(t.take(i)) <= digits_val(t),
    decreases t.len() - i,
{
    if i < t.len() {
        let a = digits_val(t.take(i));
        let b = digits_val(t.take(i + 1));
        assert(t.take(i + 1).drop_last() =~= t.take(i));
        assert(t.take(i + 1).last() == t[i]);
        assert(b == a * 10 + (t[i] - 48));
        assert(a * 10 >= a) by (nonlinear_arith)
            requires a >= 0;
        lemma_digits_val_mono(t, i + 1);
    } else {
        assert(t.take(i) =~= t);
    }
}

/// Parse a token as an unsigned decimal number.
pub fn parse_u64(t: &[u8]) -> (r: Option<u64>)
    ensures
        r == parse_u64_spec(t@),
{
    let n = t.len();
    if n == 0 {
        return None;
    }
    let mut acc: u64 = 0;
    let mut i: usize = 0;
    proof {
        assert(t@.take(0) =~= Seq::<u8>::empty());
    }
    while i < n
        invariant
            i <= n,
            n == t@.len(),
            forall|k: int| 0 <= k < i ==> 48 <= #[trigger] t@[k] <= 57,
            acc == digits_val(t@.take(i as int)),
        decreases n - i,
    {
        let c = t[i];
        if c < 48 || c > 57 {
            return None;
        }
        proof {
            assert(t@.take(i + 1).drop_last() =~= t@.take(i as int));
            assert(t@.take(i + 1).last() == t@[i as int]);
        }
        let step = match acc.checked_mul(10) {
            Some(m) => m.checked_add((c - 48) as u64),
            None => None,
        };
        match step {
            Some(v) => {
                acc = v;
            },
            None => {
                proof {
                    if all_digits(t@) {
                        assert(digits_val(t@.take(i + 1)) > u64::MAX);
                        lemma_digits_val_mono(t@, i + 1);
                    }
                }
                return None;
            },
        }
        i = i + 1;
    }
    proof {
        assert(t@.take(n as int) =~= t@);
        assert(all_digits(t@));
    }
    Some(acc)
}

/// A decimal token split at its first dot: integer part and fraction.  A
/// token without a dot is all integer part.
pub open spec fn split_at_dot(t: Seq<u8>) -> (Seq<u8>, Seq<u8>)
    decreases t.len(),
{
    if t.len() == 0 {
        (Seq::<u8>::empty(), Seq::<u8>::empty())
    } else if t.first() == 46 {
        (Seq::<u8>::empty(), t.drop_first())
    } else {
        let r = split_at_dot(t.drop_first());
        (seq![t.first()] + r.0, r.1)
    }
}

proof fn lemma_split_at_dot_at(t: Seq<u8>, d: int)
    requires
        0 <= d <= t.len(),
        forall|k: int| 0 <= k < d ==> #[trigger] t[k] != 46,
        d == t.len() || t[d] == 46,
    ensures
        split_at_dot(t).0 == t.take(d),
        split_at_dot(t).1 == (if d == t.len() {
            Seq::<u8>::empty()
        } else {
            t.skip(d + 1)
        }),
    decreases t.len(),
{
    if d == 0 {
        if t.len() == 0 {
            assert(split_at_dot(t).0 =~= t.take(0));
        } else {
            assert(t.first() == 46);
            assert(split_at_dot(t).0 =~= t.take(0));
            assert(t.drop_first() =~= t.skip(1));
        }
    } else {
        assert(t.first() != 46);
        let v = t.drop_first();
        assert(forall|k: int| 0 <= k < d - 1 ==> #[trigger] v[k] != 46) by {
            assert(forall|k: int| 0 <= k < v.len() ==> v[k] == t[k + 1]);
        };
        assert(d - 1 == v.len() || v[d - 1] == 46);
        lemma_split_at_dot_at(v, d - 1);
        assert(seq![t.first()] + v.take(d - 1) =~= t.take(d));
        if d != t.len() {
            assert(v.skip(d) =~= t.skip(d + 1));
        }
    }
}

/// The hundredths denoted by the first two fraction digits, short fractions
/// padded with zeros.
pub open spec fn frac2(f: Seq<u8>) -> nat {
    let d1: nat = if f.len() >= 1 {
        (f[0] - 48) as nat
    } else {
        0
    };
    let d2: nat = if f.len() >= 2 {
        (f[1] - 48) as nat
    } else {
        0
    };
    d1 * 10 + d2
}

/// A decimal token such as `0.52` read as a whole number of hundredths,
/// truncated past the second fraction digit: integer digits, then an optional
/// dot and fraction digits.
pub open spec fn centi_of(t: Seq<u8>) -> Option<nat> {
    let ip = split_at_dot(t).0;
    let fp = split_at_dot(t).1;
    if all_digits(ip) && (fp.len() == 0 || all_digits(fp)) {
        Some(digits_val(ip) * 100 + frac2(fp))
    } else {
        None
    }
}

/// A count capped at what one byte can carry.
pub open spec fn sat255(n: nat) -> u8 {
    if n > 255 {
        255u8
    } else {
        n as u8
    }
}

fn check_digits(x: &[u8]) -> (r: bool)
    ensures
        r == all_digits(x@),
{
    let n = x.len();
    if n == 0 {
        return false;
    }
    let mut i: usize = 0;
    while i < n
        invariant
            i <= n,
            n == x@.len(),
            forall|k: int| 0 <= k < i ==> 48 <= #[trigger] x@[k] <= 57,
        decreases n - i,
    {
        if x[i] < 48 || x[i] > 57 {
            return false;
        }
        i = i + 1;
    }
    true
}

/// Read a decimal token as saturated hundredths.
pub fn parse_centi(t: &[u8]) -> (r: Option<u8>)
    ensures
        r == (match centi_of(t@) {
            Some(n) => Some(sat255(n)),
            None => None,
        }),
{
    let n = t.len();
    let mut d: usize = 0;
    while d < n && t[d] != 46
        invariant
            d <= n,
            n == t@.len(),
            forall|k: int| 0 <= k < d ==> #[trigger] t@[k] != 46,
        decreases n - d,
    {
        d = d + 1;
    }
    proof {
        lemma_split_at_dot_at(t@, d as int);
    }
    let ip = &t[0..d];
    proof {
        assert(ip@ =~= t@.take(d as int));
    }
    if !check_digits(ip) {
        return None;
    }
    let fp: &[u8] = if d < n {
        &t[d + 1..n]
    } else {
        &t[n..n]
    };
    proof {
        if d < n {
            assert(fp@ =~= t@.skip(d + 1));
        } else {
            assert(fp@ =~= Seq::<u8>::empty());
        }
    }
    if fp.len() > 0 && !check_digits(fp) {
        return None;
    }
    let f2: u64 = frac2_exec(fp);
    match parse_u64(ip) {
        None => {
            proof {
                lemma_centi_large(ip@);
            }
            Some(255)
        },
        Some(v) => {
            if v > 255 {
                proof {
                    assert(digits_val(ip@) * 100 >= digits_val(ip@)) by (nonlinear_arith)
                        requires digits_val(ip@) >= 0;
                }
                Some(255)
            } else {
                let val = v * 100 + f2;
                if val > 255 {
                    Some(255)
                } else {
                    Some(val as u8)
                }
            }
        },
    }
}

fn frac2_exec(f: &[u8]) -> (r: u64)
    requires
        f@.len() == 0 || all_digits(f@),
    ensures
        r == frac2(f@),
{
    let d1: u64 = if f.len() >= 1 {
        (f[0] - 48) as u64
    } else {
        0
    };
    let d2: u64 = if f.len() >= 2 {
        (f[1] - 48) as u64
    } else {
        0
    };
    d1 * 10 + d2
}

proof fn lemma_centi_large(ip: Seq<u8>)
    requires
        all_digits(ip),
        digits_val(ip) > u64::MAX,
    ensures
        digits_val(ip) * 100 > 255,
{
    assert(digits_val(ip) * 100 >= digits_val(ip)) by (nonlinear_arith)
        requires
            digits_val(ip) >= 0,
    ;
}

/// The three load averages of the first three tokens, as saturated
/// hundredths.
pub open spec fn loadavg_of(content: Seq<u8>) -> Option<(u8, u8, u8)> {
    let ts = tokens_of(content);
    if ts.len() < 3 {
        None
    } else {
        match (centi_of(ts[0]), centi_of(ts[1]), centi_of(ts[2])) {
            (Some(a), Some(b), Some(c)) => Some((sat255(a), sat255(b), sat255(c))),
            _ => None,
        }
    }
}

/// A part of a whole scaled to one byte, truncated to the low byte exactly as
/// the wire format carries it.
pub open spec fn frac255(part: u64, total: u64) -> u8
    recommends
        total > 0,
{
    (((part as int * 255) / (total as int)) % 256) as u8
}

fn frac255_exec(part: u64, total: u64) -> (r: u8)
    requires
        total > 0,
    ensures
        r == frac255(part, total),
{
    (((part as u128) * 255 / (total as u128)) % 256) as u8
}

/// What the memory file yields: the free and available fractions and the
/// total in force.  The total is taken from the file's second token the first
/// time (while the stored total is still zero) and kept thereafter; free and
/// available sit in the fifth and eighth tokens.
pub open spec fn mem_of(total0: u64, content: Seq<u8>) -> Option<(u8, u8, u64)> {
    let ts = tokens_of(content);
    if ts.len() < 8 {
        None
    } else {
        let tot = if total0 == 0 {
            parse_u64_spec(ts[1])
        } else {
            Some(total0)
        };
        match (tot, parse_u64_spec(ts[4]), parse_u64_spec(ts[7])) {
            (Some(t), Some(free), Some(avail)) => if t > 0 {
                Some((frac255(free, t), frac255(avail, t), t))
            } else {
                None
            },
            _ => None,
        }
    }
}

/// What the scheduler-statistics file yields: the accumulated idle time
/// (idle plus I/O wait) and the accumulated total over all categories, from
/// the second through ninth tokens.
pub open spec fn cpu_counters(content: Seq<u8>) -> Option<(u64, u64)> {
    let ts = tokens_of(content);
    if ts.len() < 9 {
        None
    } else {
        match (parse_u64_spec(ts[1]), parse_u64_spec(ts[2]), parse_u64_spec(ts[3]),
        parse_u64_spec(ts[4]), parse_u64_spec(ts[5]), parse_u64_spec(ts[6]), parse_u64_spec(
            ts[7],
        ), parse_u64_spec(ts[8])) {
            (
                Some(user),
                Some(nice),
                Some(system),
                Some(idle),
                Some(iowait),
                Some(irq),
                Some(softirq),
                Some(steal),
            ) => {
                let idle_all = idle + iowait;
                let total_all = user + nice + system + irq + softirq + steal + idle_all;
                if total_all <= u64::MAX {
                    Some((idle_all as u64, total_all as u64))
                } else {
                    None
                }
            },
            _ => None,
        }
    }
}

/// The busy share of one byte over the counter deltas since the previous
/// sample; nothing when the counters went backwards, nothing changed, or the
/// idle delta outruns the total delta.
pub open spec fn cpu_value(prev_idle: u64, prev_total: u64, idle: u64, total: u64) -> Option<u8> {
    if idle >= prev_idle && total > prev_total && idle - prev_idle <= total - prev_total {
        Some(frac255((total - prev_total - (idle - prev_idle)) as u64, (total - prev_total) as u64))
    } else {
        None
    }
}

/// A signed count capped at what one signed byte can carry.
pub open spec fn sat_i8(n: int) -> i8 {
    if n > 127 {
        127i8
    } else if n < -128 {
        -128i8
    } else {
        n as i8
    }
}

/// The temperature file read as millidegrees — one token, an optional minus
/// sign and digits — rounded half away from zero to whole degrees and capped
/// to one signed byte.
pub open spec fn temp_of(content: Seq<u8>) -> Option<i8> {
    let ts = tokens_of(content);
    if ts.len() != 1 {
        None
    } else {
        let t = ts[0];
        let neg = t.len() > 0 && t[0] == 45;
        let digs = if neg {
            t.drop_first()
        } else {
            t
        };
        if all_digits(digs) && digits_val(digs) <= u64::MAX {
            let deg = ((digits_val(digs) + 500) / 1000) as int;
            Some(sat_i8(if neg {
                -deg
            } else {
                deg
            }))
        } else {
            None
        }
    }
}

/// The stateful reader of the host's pseudo-files: it remembers the memory
/// total and the previous scheduler counters between samples.
pub struct SysInformer {
    pub total_mem: u64,
    pub prev_idle: u64,
    pub prev_total: u64,
}

impl SysInformer {
    /// A fresh reader: no total known yet, counters at zero, so the first
    /// sample establishes the baseline.
    pub fn new() -> (r: SysInformer)
        ensures
            r.total_mem == 0,
            r.prev_idle == 0,
            r.prev_total == 0,
    {
        SysInformer { total_mem: 0, prev_idle: 0, prev_total: 0 }
    }

    /// Read the load-average file.
    pub fn get_loadavg(&self, content: &[u8]) -> (r: Option<(u8, u8, u8)>)
        ensures
            r == loadavg_of(content@),
    {
        let ts = tokenize(content);
        if ts.len() < 3 {
            return None;
        }
        proof {
            lemma_token_view(&ts, content@, 0);
            lemma_token_view(&ts, content@, 1);
            lemma_token_view(&ts, content@, 2);
        }
        let a = parse_centi(ts[0].as_slice());
        let b = parse_centi(ts[1].as_slice());
        let c = parse_centi(ts[2].as_slice());
        match (a, b, c) {
            (Some(x), Some(y), Some(z)) => Some((x, y, z)),
            _ => None,
        }
    }

    /// Read the memory file and update the remembered total.
    pub fn get_mem(&mut self, content: &[u8]) -> (r: Option<(u8, u8)>)
        ensures
            final(self).prev_idle == old(self).prev_idle,
            final(self).prev_total == old(self).prev_total,
            match mem_of(old(self).total_mem, content@) {
                Some(fat) => r == Some((fat.0, fat.1)) && final(self).total_mem == fat.2,
                None => r is None && final(self).total_mem == old(self).total_mem,
            },
    {
        let ts = tokenize(content);
        if ts.len() < 8 {
            return None;
        }
        proof {
            lemma_token_view(&ts, content@, 1);
            lemma_token_view(&ts, content@, 4);
            lemma_token_view(&ts, content@, 7);
        }
        let tot = if self.total_mem == 0 {
            parse_u64(ts[1].as_slice())
        } else {
            Some(self.total_mem)
        };
        let free = parse_u64(ts[4].as_slice());
        let avail = parse_u64(ts[7].as_slice());
        match (tot, free, avail) {
            (Some(t), Some(f), Some(a)) => {
                if t > 0 {
                    self.total_mem = t;
                    Some((frac255_exec(f, t), frac255_exec(a, t)))
                } else {
                    None
                }
            },
            _ => None,
        }
    }

    /// Read the scheduler-statistics file, update the remembered counters,
    /// and yield the busy share since the previous sample.
    pub fn get_cpu(&mut self, content: &[u8]) -> (r: Option<u8>)
        ensures
            final(self).total_mem == old(self).total_mem,
            match cpu_counters(content@) {
                Some(ct) => final(self).prev_idle == ct.0 && final(self).prev_total == ct.1 && r
                    == cpu_value(old(self).prev_idle, old(self).prev_total, ct.0, ct.1),
                None => r is None && final(self).prev_idle == old(self).prev_idle
                    && final(self).prev_total == old(self).prev_total,
            },
    {
        let ts = tokenize(content);
        if ts.len() < 9 {
            return None;
        }
        proof {
            lemma_token_view(&ts, content@, 1);
            lemma_token_view(&ts, content@, 2);
            lemma_token_view(&ts, content@, 3);
            lemma_token_view(&ts, content@, 4);
            lemma_token_view(&ts, content@, 5);
            lemma_token_view(&ts, content@, 6);
            lemma_token_view(&ts, content@, 7);
            lemma_token_view(&ts, content@, 8);
        }
        let user = parse_u64(ts[1].as_slice());
        let nice = parse_u64(ts[2].as_slice());
        let system = parse_u64(ts[3].as_slice());
        let idle = parse_u64(ts[4].as_slice());
        let iowait = parse_u64(ts[5].as_slice());
        let irq = parse_u64(ts[6].as_slice());
        let softirq = parse_u64(ts[7].as_slice());
        let steal = parse_u64(ts[8].as_slice());
        match (user, nice, system, idle, iowait, irq, softirq, steal) {
            (
                Some(us),
                Some(ni),
                Some(sy),
                Some(idl),
                Some(iow),
                Some(ir),
                Some(so),
                Some(st),
            ) => {
                let idle_all: u128 = idl as u128 + iow as u128;
                let total_all: u128 = us as u128 + ni as u128 + sy as u128 + ir as u128
                    + so as u128 + st as u128 + idle_all;
                if total_all <= u64::MAX as u128 {
                    let idle64 = idle_all as u64;
                    let total64 = total_all as u64;
                    let pi = self.prev_idle;
                    let pt = self.prev_total;
                    self.prev_idle = idle64;
                    self.prev_total = total64;
                    cpu_value_exec(pi, pt, idle64, total64)
                } else {
                    None
                }
            },
            _ => None,
        }
    }

    /// Read the temperature file.
    pub fn get_temp(&self, content: &[u8]) -> (r: Option<i8>)
        ensures
            r == temp_of(content@),
    {
        let ts = tokenize(content);
        if ts.len() != 1 {
            return None;
        }
        proof {
            lemma_token_view(&ts, content@, 0);
        }
        let t = ts[0].as_slice();
        let neg = t.len() > 0 && t[0] == 45;
        let digs: &[u8] = if neg {
            &t[1..t.len()]
        } else {
            t
        };
        proof {
            if neg {
                assert(digs@ =~= ts@[0]@.drop_first());
            }
        }
        match parse_u64(digs) {
            None => None,
            Some(m) => {
                if m >= 127500 {
                    proof {
                        assert((m + 500) / 1000 >= 128) by (nonlinear_arith)
                            requires
                                m >= 127500,
                        ;
                    }
                    if neg {
                        Some(-128)
                    } else {
                        Some(127)
                    }
                } else {
                    let deg: u64 = (m + 500) / 1000;
                    proof {
                        assert(deg <= 127) by (nonlinear_arith)
                            requires
                                m < 127500,
                                deg == (m + 500) / 1000,
                        ;
                    }
                    let d8: i8 = deg as i8;
                    if neg {
                        Some(-d8)
                    } else {
                        Some(d8)
                    }
                }
            },
        }
    }

    /// Take one whole telemetry snapshot from the four files' contents, in
    /// the order memory, scheduler, load, temperature; a file that cannot be
    /// read as expected yields nothing, though state learned up to that point
    /// is kept.
    pub fn sample(&mut self, meminfo: &[u8], stat: &[u8], loadavg: &[u8], temp: &[u8]) -> (r:
        Option<SysInfo>)
        ensures
            ({
                let m = mem_of(old(self).total_mem, meminfo@);
                match m {
                    None => r is None && *final(self) == *old(self),
                    Some(fat) => {
                        &&& final(self).total_mem == fat.2
                        &&& match cpu_counters(stat@) {
                            None => r is None && final(self).prev_idle == old(self).prev_idle
                                && final(self).prev_total == old(self).prev_total,
                            Some(ct) => {
                                &&& final(self).prev_idle == ct.0
                                &&& final(self).prev_total == ct.1
                                &&& match (cpu_value(old(self).prev_idle, old(self).prev_total,
                                ct.0, ct.1), loadavg_of(loadavg@), temp_of(temp@)) {
                                    (Some(c), Some(l), Some(tp)) => r == Some(SysInfo {
                                        free_mem: fat.0,
                                        avail_mem: fat.1,
                                        cpu: c,
                                        load1: l.0,
                                        load5: l.1,
                                        load15: l.2,
                                        temp: tp,
                                    }),
                                    _ => r is None,
                                }
                            },
                        }
                    },
                }
            }),
    {
        let mem = self.get_mem(meminfo);
        match mem {
            None => None,
            Some(fa) => {
                let cpu = self.get_cpu(stat);
                let load = self.get_loadavg(loadavg);
                let tp = self.get_temp(temp);
                match (cpu, load, tp) {
                    (Some(c), Some(l), Some(t)) => Some(
                        SysInfo {
                            free_mem: fa.0,
                            avail_mem: fa.1,
                            cpu: c,
                            load1: l.0,
                            load5: l.1,
                            load15: l.2,
                            temp: t,
                        },
                    ),
                    _ => None,
                }
            },
        }
    }
}

fn cpu_value_exec(prev_idle: u64, prev_total: u64, idle: u64, total: u64) -> (r: Option<u8>)
    ensures
        r == cpu_value(prev_idle, prev_total, idle, total),
{
    if idle >= prev_idle && total > prev_total {
        let d_idle = idle - prev_idle;
        let d_total = total - prev_total;
        if d_idle <= d_total {
            Some(frac255_exec(d_total - d_idle, d_total))
        } else {
            None
        }
    } else {
        None
    }
}

proof fn lemma_token_view(ts: &Vec<Vec<u8>>, content: Seq<u8>, i: int)
    requires
        ts.deep_view() == tokens_of(content),
        0 <= i < ts@.len(),
    ensures
        ts@[i]@ == tokens_of(content)[i],
        tokens_of(content).len() == ts@.len(),
{
    assert(ts.deep_view()[i] == ts@[i].deep_view());
    assert(ts@[i].deep_view() =~= ts@[i]@);
}

} // verus!
