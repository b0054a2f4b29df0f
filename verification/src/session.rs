//! Extraction of the session token from raw `Cookie` header lines.
//!
//! A request may carry the `Cookie` header several times, and each line
//! may hold several `;`-separated `name=value` pairs.  Each pair is
//! trimmed of surrounding blanks and split at its first `=`; the name is
//! percent-decoded, and the value is stripped of one pair of surrounding
//! double quotes and percent-decoded.  A
//! malformed pair is skipped, never fatal; a header line whose bytes are
//! not plain ASCII text is skipped whole.  Among all valid pairs named
//! `waiting-token` the last occurrence wins.

use vstd::prelude::*;

use crate::text::{all_ascii, ascii_bytes_to_string, chars_of};

verus! {

/// A blank byte: space or horizontal tab.
pub open spec fn is_sp(b: u8) -> bool {
    b == 32 || b == 9
}

/// The byte string with surrounding blanks removed.
pub open spec fn trim_spec(s: Seq<u8>) -> Seq<u8>
    decreases s.len(),
{
    if s.len() == 0 {
        s
    } else if is_sp(s[0]) {
        trim_spec(s.drop_first())
    } else if is_sp(s.last()) {
        trim_spec(s.drop_last())
    } else {
        s
    }
}

/// The position of the first `=` at or after `i`, or the length if none.
pub open spec fn eq_pos(s: Seq<u8>, i: int) -> int
    decreases s.len() - i when 0 <= i <= s.len()
{
    if i == s.len() {
        i
    } else if s[i] == 61 {
        i
    } else {
        eq_pos(s, i + 1)
    }
}

/// The bytes of the cookie name `waiting-token`.
pub open spec fn token_name() -> Seq<u8> {
    seq![119u8, 97u8, 105u8, 116u8, 105u8, 110u8, 103u8, 45u8, 116u8, 111u8, 107u8, 101u8, 110u8]
}

/// The value with one pair of surrounding double quotes removed.
pub open spec fn unquote(v: Seq<u8>) -> Seq<u8> {
    if v.len() >= 2 && v[0] == 34 && v.last() == 34 {
        v.subrange(1, v.len() - 1)
    } else {
        v
    }
}

/// The value of a hexadecimal digit byte, or -1.
pub open spec fn hex_val(b: u8) -> int {
    if 48 <= b && b <= 57 {
        b - 48
    } else if 65 <= b && b <= 70 {
        b - 55
    } else if 97 <= b && b <= 102 {
        b - 87
    } else {
        -1
    }
}

/// Percent-decoding of the value bytes from position `i` on: `%` must
/// be followed by two hexadecimal digits, anything else is copied.
pub open spec fn pct_decode(v: Seq<u8>, i: int) -> Option<Seq<u8>>
    decreases v.len() - i when 0 <= i <= v.len()
{
    if i == v.len() {
        Some(Seq::empty())
    } else if v[i] == 37 {
        if i + 3 <= v.len() && hex_val(v[i + 1]) >= 0 && hex_val(v[i + 2]) >= 0 {
            match pct_decode(v, i + 3) {
                Some(rest) => Some(
                    seq![(hex_val(v[i + 1]) * 16 + hex_val(v[i + 2])) as u8] + rest,
                ),
                None => None,
            }
        } else {
            None
        }
    } else {
        match pct_decode(v, i + 1) {
            Some(rest) => Some(seq![v[i]] + rest),
            None => None,
        }
    }
}

/// A decoded option with a prefix put before its content.
pub open spec fn prefixed(pre: Seq<u8>, rest: Option<Seq<u8>>) -> Option<Seq<u8>> {
    match rest {
        Some(r) => Some(pre + r),
        None => None,
    }
}

/// A raw cookie value cooked for use: unquoted, percent-decoded, and
/// required to stay ASCII; anything else marks the pair malformed.
pub open spec fn cook_value(raw: Seq<u8>) -> Option<Seq<u8>> {
    match pct_decode(unquote(raw), 0) {
        Some(d) => if all_ascii(d) {
            Some(d)
        } else {
            None
        },
        None => None,
    }
}

/// The token value carried by one `;`-separated segment, if the segment
/// is a well-formed pair named `waiting-token`.
pub open spec fn pair_value(seg: Seq<u8>) -> Option<Seq<u8>> {
    let t = trim_spec(seg);
    let e = eq_pos(t, 0);
    if e == t.len() {
        None
    } else {
        let raw = trim_spec(t.subrange(e + 1, t.len() as int));
        match pct_decode(trim_spec(t.subrange(0, e)), 0) {
            Some(name) => if name == token_name() {
                cook_value(raw)
            } else {
                None
            },
            None => None,
        }
    }
}

/// Scanning one header line byte by byte: `seg` is the segment read so
/// far, `best` the last token value seen before it.
pub open spec fn find_in_line_acc(line: Seq<u8>, seg: Seq<u8>, best: Option<Seq<u8>>) -> Option<
    Seq<u8>,
>
    decreases line.len(),
{
    if line.len() == 0 {
        match pair_value(seg) {
            Some(v) => Some(v),
            None => best,
        }
    } else if line[0] == 59 {
        let b2 = match pair_value(seg) {
            Some(v) => Some(v),
            None => best,
        };
        find_in_line_acc(line.subrange(1, line.len() as int), Seq::empty(), b2)
    } else {
        find_in_line_acc(line.subrange(1, line.len() as int), seg.push(line[0]), best)
    }
}

/// The token value carried by one header line, the last valid
/// `waiting-token` pair winning.
pub open spec fn find_in_line(line: Seq<u8>) -> Option<Seq<u8>> {
    find_in_line_acc(line, Seq::empty(), None)
}

/// The token value carried by a sequence of header lines: lines that
/// are not ASCII text are skipped, and the last valid `waiting-token`
/// pair across all remaining lines wins.
pub open spec fn extract_spec(headers: Seq<Seq<u8>>) -> Option<Seq<u8>>
    decreases headers.len(),
{
    if headers.len() == 0 {
        None
    } else {
        let prior = extract_spec(headers.drop_last());
        if !all_ascii(headers.last()) {
            prior
        } else {
            match find_in_line(headers.last()) {
                Some(v) => Some(v),
                None => prior,
            }
        }
    }
}

/// The view of an optional byte vector.
pub open spec fn view_opt(o: Option<Vec<u8>>) -> Option<Seq<u8>> {
    match o {
        Some(v) => Some(v@),
        None => None,
    }
}

/// Whether a byte is blank, executably.
fn sp_byte(b: u8) -> (r: bool)
    ensures
        r == is_sp(b),
{
    b == 32 || b == 9
}

/// Copies the bytes of `v` between `a` and `b`.
fn subvec(v: &Vec<u8>, a: usize, b: usize) -> (r: Vec<u8>)
    requires
        a <= b <= v@.len(),
    ensures
        r@ == v@.subrange(a as int, b as int),
{
    let mut r: Vec<u8> = Vec::new();
    let mut i: usize = a;
    while i < b
        invariant
            a <= i <= b <= v@.len(),
            r@ == v@.subrange(a as int, i as int),
        decreases b - i,
    {
        r.push(v[i]);
        proof {
            assert(r@ =~= v@.subrange(a as int, i + 1 as int));
        }
        i += 1;
    }
    r
}

/// Removes surrounding blanks.
fn trim(v: &Vec<u8>) -> (r: Vec<u8>)
    ensures
        r@ == trim_spec(v@),
{
    let mut lo: usize = 0;
    let mut hi: usize = v.len();
    proof {
        assert(v@.subrange(0, v@.len() as int) =~= v@);
    }
    loop
        invariant
            lo <= hi <= v@.len(),
            trim_spec(v@) == trim_spec(v@.subrange(lo as int, hi as int)),
        ensures
            lo <= hi <= v@.len(),
            trim_spec(v@) == trim_spec(v@.subrange(lo as int, hi as int)),
            lo == hi || (!is_sp(v@[lo as int]) && !is_sp(v@[hi - 1 as int])),
        decreases hi - lo,
    {
        let ghost sub = v@.subrange(lo as int, hi as int);
        if lo < hi && sp_byte(v[lo]) {
            proof {
                assert(sub.drop_first() =~= v@.subrange(lo + 1 as int, hi as int));
            }
            lo += 1;
        } else if lo < hi && sp_byte(v[hi - 1]) {
            proof {
                assert(!is_sp(sub[0]));
                assert(sub.drop_last() =~= v@.subrange(lo as int, hi - 1 as int));
            }
            hi -= 1;
        } else {
            break ;
        }
    }
    let r = subvec(v, lo, hi);
    proof {
        let sub = v@.subrange(lo as int, hi as int);
        if lo == hi {
            assert(sub.len() == 0);
        }
        assert(trim_spec(sub) == sub);
    }
    r
}

/// Whether these bytes spell `waiting-token`.
fn is_token_name(name: &Vec<u8>) -> (r: bool)
    ensures
        r == (name@ == token_name()),
{
    let r = name.len() == 13 && name[0] == 119 && name[1] == 97 && name[2] == 105 && name[3] == 116
        && name[4] == 105 && name[5] == 110 && name[6] == 103 && name[7] == 45 && name[8] == 116
        && name[9] == 111 && name[10] == 107 && name[11] == 101 && name[12] == 110;
    proof {
        if r {
            assert(name@ =~= token_name());
        } else {
            if name@ == token_name() {
                assert(name@.len() == 13);
                assert(false);
            }
        }
    }
    r
}

/// The value of a hexadecimal digit byte, executably.
fn hex_digit(b: u8) -> (r: Option<u8>)
    ensures
        match r {
            Some(h) => hex_val(b) == h as int && h < 16,
            None => hex_val(b) < 0,
        },
{
    if 48 <= b && b <= 57 {
        Some(b - 48)
    } else if 65 <= b && b <= 70 {
        Some(b - 55)
    } else if 97 <= b && b <= 102 {
        Some(b - 87)
    } else {
        None
    }
}

/// Percent-decodes a value.
fn percent_decode(u: &Vec<u8>) -> (r: Option<Vec<u8>>)
    ensures
        view_opt(r) == pct_decode(u@, 0),
{
    let n = u.len();
    let mut out: Vec<u8> = Vec::new();
    let mut i: usize = 0;
    while i < n
        invariant
            i <= n,
            n == u@.len(),
            pct_decode(u@, 0) == prefixed(out@, pct_decode(u@, i as int)),
        decreases n - i,
    {
        let b = u[i];
        if b == 37 {
            if n - i > 2 {
                let h1 = hex_digit(u[i + 1]);
                let h2 = hex_digit(u[i + 2]);
                match (h1, h2) {
                    (Some(a), Some(c)) => {
                        let ghost out0 = out@;
                        let d: u8 = a * 16 + c;
                        out.push(d);
                        proof {
                            let rest = pct_decode(u@, i + 3);
                            assert(pct_decode(u@, i as int) == prefixed(seq![d], rest));
                            if rest is Some {
                                assert(out0 + (seq![d] + rest->0) =~= out0.push(d) + rest->0);
                            }
                        }
                        i += 3;
                    },
                    _ => {
                        proof {
                            assert(pct_decode(u@, i as int) is None);
                        }
                        return None;
                    },
                }
            } else {
                proof {
                    assert(pct_decode(u@, i as int) is None);
                }
                return None;
            }
        } else {
            let ghost out0 = out@;
            out.push(b);
            proof {
                let rest = pct_decode(u@, i + 1);
                assert(pct_decode(u@, i as int) == prefixed(seq![b], rest));
                if rest is Some {
                    assert(out0 + (seq![b] + rest->0) =~= out0.push(b) + rest->0);
                }
            }
            i += 1;
        }
    }
    proof {
        assert(pct_decode(u@, n as int) == Some(Seq::<u8>::empty()));
        assert(out@ + Seq::<u8>::empty() =~= out@);
    }
    Some(out)
}

/// Unquotes, percent-decodes and checks a raw cookie value.
fn cook(raw: &Vec<u8>) -> (r: Option<Vec<u8>>)
    ensures
        view_opt(r) == cook_value(raw@),
{
    let n = raw.len();
    let u = if n >= 2 && raw[0] == 34 && raw[n - 1] == 34 {
        subvec(raw, 1, n - 1)
    } else {
        let w = subvec(raw, 0, n);
        proof {
            assert(w@ =~= raw@);
        }
        w
    };
    proof {
        assert(u@ == unquote(raw@));
    }
    match percent_decode(&u) {
        None => None,
        Some(d) => {
            let m = d.len();
            let mut k: usize = 0;
            while k < m
                invariant
                    k <= m,
                    m == d@.len(),
                    u@ == unquote(raw@),
                    pct_decode(u@, 0) == Some(d@),
                    forall|j: int| 0 <= j < k ==> d@[j] < 128,
                decreases m - k,
            {
                if d[k] >= 128 {
                    proof {
                        assert(!all_ascii(d@));
                    }
                    return None;
                }
                k += 1;
            }
            proof {
                assert(all_ascii(d@));
            }
            Some(d)
        },
    }
}

/// Parses one `;`-separated segment: the token value if the segment is
/// a valid pair named `waiting-token`.
fn parse_pair(seg: &Vec<u8>) -> (r: Option<Vec<u8>>)
    ensures
        view_opt(r) == pair_value(seg@),
{
    let t = trim(seg);
    let n = t.len();
    let mut e: usize = 0;
    while e < n && t[e] != 61
        invariant
            e <= n,
            n == t@.len(),
            eq_pos(t@, 0) == eq_pos(t@, e as int),
        decreases n - e,
    {
        e += 1;
    }
    proof {
        assert(eq_pos(t@, 0) == e as int);
    }
    if e == n {
        return None;
    }
    let name_raw = trim(&subvec(&t, 0, e));
    let raw = trim(&subvec(&t, e + 1, n));
    match percent_decode(&name_raw) {
        None => None,
        Some(name) => {
            if !is_token_name(&name) {
                return None;
            }
            cook(&raw)
        },
    }
}

/// Scans one header line for the token value, the last valid pair
/// winning.
fn scan_line(line: &Vec<u8>) -> (r: Option<Vec<u8>>)
    ensures
        view_opt(r) == find_in_line(line@),
        r is Some ==> all_ascii((r->0)@),
{
    let n = line.len();
    let mut seg: Vec<u8> = Vec::new();
    let mut best: Option<Vec<u8>> = None;
    let mut i: usize = 0;
    proof {
        assert(line@.subrange(0, n as int) =~= line@);
        assert(seg@ =~= Seq::<u8>::empty());
    }
    while i < n
        invariant
            i <= n,
            n == line@.len(),
            find_in_line(line@) == find_in_line_acc(
                line@.subrange(i as int, n as int),
                seg@,
                view_opt(best),
            ),
            best is Some ==> all_ascii((best->0)@),
        decreases n - i,
    {
        let ghost sub = line@.subrange(i as int, n as int);
        proof {
            assert(sub[0] == line@[i as int]);
            assert(sub.subrange(1, sub.len() as int) =~= line@.subrange(i + 1 as int, n as int));
        }
        let b = line[i];
        if b == 59 {
            let done = parse_pair(&seg);
            proof {
                assert(sub.len() > 0 && sub[0] == 59);
                if pair_value(seg@) is Some {
                    assert(all_ascii(pair_value(seg@)->0));
                }
            }
            match done {
                Some(v) => {
                    best = Some(v);
                },
                None => {},
            }
            seg = Vec::new();
            proof {
                assert(seg@ =~= Seq::<u8>::empty());
            }
        } else {
            let ghost seg0 = seg@;
            seg.push(b);
            proof {
                assert(seg@ =~= seg0.push(b));
            }
        }
        i += 1;
    }
    let done = parse_pair(&seg);
    proof {
        assert(line@.subrange(n as int, n as int) =~= Seq::<u8>::empty());
        if pair_value(seg@) is Some {
            assert(all_ascii(pair_value(seg@)->0));
        }
    }
    match done {
        Some(v) => Some(v),
        None => best,
    }
}

/// Checks that every byte of a line is ASCII.
fn line_ascii(line: &Vec<u8>) -> (r: bool)
    ensures
        r == all_ascii(line@),
{
    let n = line.len();
    let mut k: usize = 0;
    while k < n
        invariant
            k <= n,
            n == line@.len(),
            forall|j: int| 0 <= j < k ==> line@[j] < 128,
        decreases n - k,
    {
        if line[k] >= 128 {
            return false;
        }
        k += 1;
    }
    true
}

/// Extracts the `waiting-token` cookie value from raw `Cookie` header
/// lines.  Returns the value of the last valid `waiting-token` pair
/// across all ASCII header lines, or `None` when no such pair exists.
pub fn extract(headers: &Vec<Vec<u8>>) -> (r: Option<String>)
    ensures
        match r {
            Some(s) => extract_spec(headers.deep_view()) is Some && s@ == chars_of(
                extract_spec(headers.deep_view())->0,
            ),
            None => extract_spec(headers.deep_view()) is None,
        },
{
    let ghost hv = headers.deep_view();
    let n = headers.len();
    let mut best: Option<Vec<u8>> = None;
    let mut j: usize = 0;
    while j < n
        invariant
            j <= n,
            n == headers@.len(),
            hv == headers.deep_view(),
            hv.len() == n,
            forall|k: int| 0 <= k < n ==> hv[k] == #[trigger] headers@[k]@,
            view_opt(best) == extract_spec(hv.subrange(0, j as int)),
            best is Some ==> all_ascii((best->0)@),
        decreases n - j,
    {
        let ghost pre = hv.subrange(0, j as int);
        let ghost pre2 = hv.subrange(0, j + 1 as int);
        proof {
            assert(pre2.drop_last() =~= pre);
            assert(pre2.last() == headers@[j as int]@);
        }
        if line_ascii(&headers[j]) {
            let found = scan_line(&headers[j]);
            match found {
                Some(v) => {
                    best = Some(v);
                },
                None => {},
            }
        }
        j += 1;
    }
    proof {
        assert(hv.subrange(0, n as int) =~= hv);
    }
    match best {
        Some(v) => Some(ascii_bytes_to_string(v)),
        None => None,
    }
}

} // verus!
