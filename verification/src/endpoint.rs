use crate::error::OnvifError;
use crate::template::chars_of;
use vstd::prelude::*;
use vstd::string::StringExecFns;

verus! {

/// The address of a host, as numbers: four octets, or eight groups of sixteen
/// bits.
#[derive(Clone, Copy, Debug, PartialEq, Eq)]
pub enum HostAddress {
    V4([u8; 4]),
    V6([u16; 8]),
}

/// The address of a device's service. Every value is an address: there is no
/// text in it that could fail to be one.
#[derive(Clone, Copy, Debug, PartialEq, Eq)]
pub struct Endpoint {
    pub host: HostAddress,
    pub port: u16,
    /// The scope of an IPv6 address; it is no part of the host's text.
    pub scope_id: u32,
}

/// A host address as plain values.
pub enum HostModel {
    V4(Seq<u8>),
    V6(Seq<u16>),
}

/// An endpoint as plain values.
pub struct EndpointModel {
    pub host: HostModel,
    pub port: nat,
    pub scope_id: nat,
}

impl View for HostAddress {
    type V = HostModel;

    open spec fn view(&self) -> HostModel {
        match *self {
            HostAddress::V4(octets) => HostModel::V4(octets@),
            HostAddress::V6(groups) => HostModel::V6(groups@),
        }
    }
}

impl View for Endpoint {
    type V = EndpointModel;

    open spec fn view(&self) -> EndpointModel {
        EndpointModel {
            host: self.host@,
            port: self.port as nat,
            scope_id: self.scope_id as nat,
        }
    }
}

/// A decimal digit.
pub open spec fn is_digit(c: char) -> bool {
    '0' <= c && c <= '9'
}

/// A hexadecimal digit, in either case.
pub open spec fn is_hex(c: char) -> bool {
    is_digit(c) || ('a' <= c && c <= 'f') || ('A' <= c && c <= 'F')
}

/// Every character is a decimal digit.
pub open spec fn all_digits(s: Seq<char>) -> bool {
    forall|i: int| 0 <= i < s.len() ==> is_digit(#[trigger] s[i])
}

/// Every character is a hexadecimal digit.
pub open spec fn all_hex(s: Seq<char>) -> bool {
    forall|i: int| 0 <= i < s.len() ==> is_hex(#[trigger] s[i])
}

/// The number that a run of digits writes.
pub open spec fn digits_value(s: Seq<char>) -> nat
    decreases s.len(),
{
    if s.len() == 0 {
        0
    } else {
        digits_value(s.drop_last()) * 10 + (s.last() as nat - '0' as nat) as nat
    }
}

/// What a hexadecimal digit is worth.
pub open spec fn hex_digit_value(c: char) -> nat {
    if is_digit(c) {
        (c as nat - '0' as nat) as nat
    } else if 'a' <= c && c <= 'f' {
        (c as nat - 'a' as nat + 10) as nat
    } else {
        (c as nat - 'A' as nat + 10) as nat
    }
}

/// The number that a run of hexadecimal digits writes.
pub open spec fn hex_value(s: Seq<char>) -> nat
    decreases s.len(),
{
    if s.len() == 0 {
        0
    } else {
        hex_value(s.drop_last()) * 16 + hex_digit_value(s.last())
    }
}

/// A number of at most `max` in decimal: one digit or more; zeros in front
/// are allowed, as in a port.
pub open spec fn number_value(s: Seq<char>, max: nat) -> Option<nat> {
    if s.len() > 0 && all_digits(s) && digits_value(s) <= max {
        Some(digits_value(s))
    } else {
        None
    }
}

/// One octet of a dotted address: a number of at most 255 with no zero in
/// front of another digit.
pub open spec fn octet_value(s: Seq<char>) -> Option<u8> {
    if number_value(s, 255) is Some && !(s.len() > 1 && s[0] == '0') {
        Some(digits_value(s) as u8)
    } else {
        None
    }
}

/// One group of an IPv6 address: one to four hexadecimal digits.
pub open spec fn hex_group(s: Seq<char>) -> Option<u16> {
    if 1 <= s.len() <= 4 && all_hex(s) {
        Some(hex_value(s) as u16)
    } else {
        None
    }
}

/// The first index at or after `from` where `c` stands in `s`, or the length
/// of `s` where it stands nowhere.
pub open spec fn find_from(s: Seq<char>, c: char, from: int) -> int
    decreases s.len() - from,
{
    if from < 0 || from >= s.len() {
        s.len() as int
    } else if s[from] == c {
        from
    } else {
        find_from(s, c, from + 1)
    }
}

/// The first index at or after `from` where two colons stand side by side, or
/// the length of `s` where they do nowhere.
pub open spec fn find_double_colon(s: Seq<char>, from: int) -> int
    decreases s.len() - from,
{
    if from < 0 || from + 1 >= s.len() {
        s.len() as int
    } else if s[from] == ':' && s[from + 1] == ':' {
        from
    } else {
        find_double_colon(s, from + 1)
    }
}

/// A dotted address: four octets with dots between them.
pub open spec fn quad_of(s: Seq<char>) -> Option<Seq<u8>> {
    let d1 = find_from(s, '.', 0);
    let d2 = find_from(s, '.', d1 + 1);
    let d3 = find_from(s, '.', d2 + 1);
    let n = s.len() as int;
    if 0 <= d1 < d2 < d3 < n && octet_value(s.subrange(0, d1)) is Some && octet_value(
        s.subrange(d1 + 1, d2),
    ) is Some && octet_value(s.subrange(d2 + 1, d3)) is Some && octet_value(
        s.subrange(d3 + 1, n),
    ) is Some {
        Some(
            seq![
                octet_value(s.subrange(0, d1))->0,
                octet_value(s.subrange(d1 + 1, d2))->0,
                octet_value(s.subrange(d2 + 1, d3))->0,
                octet_value(s.subrange(d3 + 1, n))->0,
            ],
        )
    } else {
        None
    }
}

/// Two octets as one group, the first in front.
pub open spec fn pair_of(high: u8, low: u8) -> u16 {
    (high as int * 256 + low as int) as u16
}

/// Groups with single colons between them. Where `allow_quad` holds, a dotted
/// address may stand in the last place; it counts as two groups.
pub open spec fn groups_of(s: Seq<char>, allow_quad: bool) -> Option<Seq<u16>>
    decreases s.len(),
{
    let c = find_from(s, ':', 0);
    if c < 0 || c >= s.len() {
        if hex_group(s) is Some {
            Some(seq![hex_group(s)->0])
        } else if allow_quad && quad_of(s) is Some {
            let q = quad_of(s)->0;
            Some(seq![pair_of(q[0], q[1]), pair_of(q[2], q[3])])
        } else {
            None
        }
    } else {
        let first = hex_group(s.subrange(0, c));
        let rest = groups_of(s.subrange(c + 1, s.len() as int), allow_quad);
        if first is Some && rest is Some {
            Some(seq![first->0] + rest->0)
        } else {
            None
        }
    }
}

/// The eight groups that the text of an IPv6 address writes: eight groups
/// with colons between them, or fewer around one double colon, which stands
/// for the groups of zero that are left out. A dotted address may stand for
/// the last two groups, but not before a double colon.
pub open spec fn ipv6_groups_of(s: Seq<char>) -> Option<Seq<u16>> {
    let i = find_double_colon(s, 0);
    let n = s.len() as int;
    if i < 0 || i >= n {
        if groups_of(s, true) is Some && (groups_of(s, true)->0).len() == 8 {
            groups_of(s, true)
        } else {
            None
        }
    } else {
        let head = if i == 0 {
            Some(Seq::<u16>::empty())
        } else {
            groups_of(s.subrange(0, i), false)
        };
        let tail = if i + 2 >= n {
            Some(Seq::<u16>::empty())
        } else {
            groups_of(s.subrange(i + 2, n), true)
        };
        if head is Some && tail is Some && (head->0).len() + (tail->0).len() <= 7 {
            Some(
                (head->0) + Seq::new(
                    (8 - (head->0).len() - (tail->0).len()) as nat,
                    |k: int| 0u16,
                ) + (tail->0),
            )
        } else {
            None
        }
    }
}

/// What the text of a socket address means: a dotted address, a colon and a
/// port; or, between square brackets, an IPv6 address with or without a
/// percent sign and a scope number, then a colon and a port.
pub open spec fn endpoint_of(text: Seq<char>) -> Option<EndpointModel> {
    let n = text.len() as int;
    if n > 0 && text[0] == '[' {
        let close = find_from(text, ']', 1);
        if 1 <= close && close + 1 < n && text[close + 1] == ':' {
            let body = text.subrange(1, close);
            let pct = find_from(body, '%', 0);
            let groups = ipv6_groups_of(
                if 0 <= pct < body.len() {
                    body.subrange(0, pct)
                } else {
                    body
                },
            );
            let scope = if 0 <= pct < body.len() {
                number_value(body.subrange(pct + 1, body.len() as int), 0xffff_ffff)
            } else {
                Some(0nat)
            };
            let port = number_value(text.subrange(close + 2, n), 65535);
            if groups is Some && scope is Some && port is Some {
                Some(
                    EndpointModel {
                        host: HostModel::V6(groups->0),
                        port: port->0,
                        scope_id: scope->0,
                    },
                )
            } else {
                None
            }
        } else {
            None
        }
    } else {
        let colon = find_from(text, ':', 0);
        if 0 <= colon < n && quad_of(text.subrange(0, colon)) is Some && number_value(
            text.subrange(colon + 1, n),
            65535,
        ) is Some {
            Some(
                EndpointModel {
                    host: HostModel::V4(quad_of(text.subrange(0, colon))->0),
                    port: number_value(text.subrange(colon + 1, n), 65535)->0,
                    scope_id: 0,
                },
            )
        } else {
            None
        }
    }
}

/// A run of digits is worth at least as much as any run it begins with.
proof fn lemma_digits_value_grows(s: Seq<char>, n: int)
    requires
        0 <= n <= s.len(),
    ensures
        digits_value(s.subrange(0, n)) <= digits_value(s),
    decreases s.len(),
{
    if n == s.len() {
        assert(s.subrange(0, n) =~= s);
    } else {
        lemma_digits_value_grows(s.drop_last(), n);
        assert(s.drop_last().subrange(0, n) =~= s.subrange(0, n));
    }
}

/// The search from `from` stops at the first `c`: before the index it gives
/// there is none, and at that index, where it lies in the text, there is one.
proof fn lemma_find_from_first(s: Seq<char>, c: char, from: int)
    requires
        0 <= from <= s.len(),
    ensures
        from <= find_from(s, c, from) <= s.len(),
        find_from(s, c, from) < s.len() ==> s[find_from(s, c, from)] == c,
        forall|i: int| from <= i < find_from(s, c, from) ==> s[i] != c,
    decreases s.len() - from,
{
    if from < s.len() && s[from] != c {
        lemma_find_from_first(s, c, from + 1);
    }
}

/// The characters from `from` up to `to`.
fn slice_of(text: &Vec<char>, from: usize, to: usize) -> (out: Vec<char>)
    requires
        from <= to <= text@.len(),
    ensures
        out@ == text@.subrange(from as int, to as int),
{
    let mut out: Vec<char> = Vec::new();
    let mut i: usize = from;
    while i < to
        invariant
            from <= i <= to <= text@.len(),
            out@ == text@.subrange(from as int, i as int),
        decreases to - i,
    {
        out.push(text[i]);
        assert(text@.subrange(from as int, i + 1) =~= text@.subrange(from as int, i as int).push(
            text@[i as int],
        ));
        i += 1;
    }
    out
}

/// Finds the first `c` at or after `from`.
fn find_char(text: &Vec<char>, c: char, from: usize) -> (at: usize)
    requires
        from <= text@.len(),
    ensures
        at == find_from(text@, c, from as int),
        from <= at <= text@.len(),
        at < text@.len() ==> text@[at as int] == c,
{
    let mut at: usize = from;
    while at < text.len() && text[at] != c
        invariant
            from <= at <= text@.len(),
            find_from(text@, c, from as int) == find_from(text@, c, at as int),
        decreases text@.len() - at,
    {
        at += 1;
    }
    at
}

/// Finds the first double colon.
fn find_colons(text: &Vec<char>) -> (at: usize)
    ensures
        at == find_double_colon(text@, 0),
        at <= text@.len(),
        at < text@.len() ==> at + 2 <= text@.len(),
{
    let n = text.len();
    let mut at: usize = 0;
    while at < n && at + 1 < n
        invariant
            at <= n,
            n == text@.len(),
            find_double_colon(text@, 0) == find_double_colon(text@, at as int),
        decreases n - at,
    {
        if text[at] == ':' && text[at + 1] == ':' {
            return at;
        }
        at += 1;
    }
    n
}

/// Reads a run of digits as a number of at most `max`.
fn read_number(s: &Vec<char>, max: u64) -> (out: Option<u64>)
    requires
        max <= 0xffff_ffff,
    ensures
        match out {
            Some(v) => number_value(s@, max as nat) == Some(v as nat),
            None => number_value(s@, max as nat) is None,
        },
{
    if s.len() == 0 {
        return None;
    }
    let mut value: u64 = 0;
    let mut i: usize = 0;
    while i < s.len()
        invariant
            i <= s@.len(),
            max <= 0xffff_ffff,
            value <= max,
            value == digits_value(s@.subrange(0, i as int)),
            forall|j: int| 0 <= j < i ==> is_digit(#[trigger] s@[j]),
        decreases s@.len() - i,
    {
        let c = s[i];
        if c < '0' || c > '9' {
            assert(!is_digit(s@[i as int]));
            return None;
        }
        let digit: u64 = (c as u32 - '0' as u32) as u64;
        let next: u64 = value * 10 + digit;
        proof {
            let upto = s@.subrange(0, i + 1);
            assert(upto.drop_last() =~= s@.subrange(0, i as int));
            assert(upto.last() == c);
            assert(digits_value(upto) == next);
            if next > max {
                lemma_digits_value_grows(s@, i + 1);
            }
        }
        if next > max {
            return None;
        }
        value = next;
        i += 1;
    }
    assert(s@.subrange(0, s@.len() as int) =~= s@);
    Some(value)
}

/// Reads one octet of a dotted address.
fn read_octet(s: &Vec<char>) -> (out: Option<u8>)
    ensures
        out == octet_value(s@),
{
    if s.len() > 1 && s[0] == '0' {
        return None;
    }
    match read_number(s, 255) {
        Some(v) => Some(v as u8),
        None => None,
    }
}

/// Whether `c` is a hexadecimal digit.
fn hex_char(c: char) -> (out: bool)
    ensures
        out == is_hex(c),
{
    (c >= '0' && c <= '9') || (c >= 'a' && c <= 'f') || (c >= 'A' && c <= 'F')
}

/// Reads one group of an IPv6 address.
fn read_hex_group(s: &Vec<char>) -> (out: Option<u16>)
    ensures
        out == hex_group(s@),
{
    let n = s.len();
    if n == 0 || n > 4 {
        return None;
    }
    let mut value: u32 = 0;
    let mut i: usize = 0;
    while i < n
        invariant
            i <= n <= 4,
            n == s@.len(),
            value == hex_value(s@.subrange(0, i as int)),
            i == 0 ==> value < 1,
            i == 1 ==> value < 16,
            i == 2 ==> value < 256,
            i == 3 ==> value < 4096,
            i == 4 ==> value < 65536,
            forall|j: int| 0 <= j < i ==> is_hex(#[trigger] s@[j]),
        decreases n - i,
    {
        let c = s[i];
        if !hex_char(c) {
            assert(!is_hex(s@[i as int]));
            return None;
        }
        let digit: u32 = if c >= '0' && c <= '9' {
            c as u32 - '0' as u32
        } else if c >= 'a' && c <= 'f' {
            c as u32 - 'a' as u32 + 10
        } else {
            c as u32 - 'A' as u32 + 10
        };
        proof {
            let upto = s@.subrange(0, i + 1);
            assert(upto.drop_last() =~= s@.subrange(0, i as int));
            assert(upto.last() == c);
            assert(digit == hex_digit_value(c));
        }
        value = value * 16 + digit;
        i += 1;
    }
    assert(s@.subrange(0, n as int) =~= s@);
    Some(value as u16)
}

/// Reads a dotted address.
fn read_quad(s: &Vec<char>) -> (out: Option<[u8; 4]>)
    ensures
        match out {
            Some(q) => quad_of(s@) == Some(q@),
            None => quad_of(s@) is None,
        },
{
    let n = s.len();
    let d1 = find_char(s, '.', 0);
    if d1 >= n {
        return None;
    }
    let d2 = find_char(s, '.', d1 + 1);
    if d2 >= n {
        return None;
    }
    let d3 = find_char(s, '.', d2 + 1);
    if d3 >= n {
        return None;
    }
    let a = read_octet(&slice_of(s, 0, d1));
    let b = read_octet(&slice_of(s, d1 + 1, d2));
    let c = read_octet(&slice_of(s, d2 + 1, d3));
    let d = read_octet(&slice_of(s, d3 + 1, n));
    if a.is_none() || b.is_none() || c.is_none() || d.is_none() {
        return None;
    }
    let q: [u8; 4] = [a.unwrap(), b.unwrap(), c.unwrap(), d.unwrap()];
    assert(q@ =~= quad_of(s@)->0);
    Some(q)
}

/// Reads groups with single colons between them.
fn read_groups(s: &Vec<char>, allow_quad: bool) -> (out: Option<Vec<u16>>)
    ensures
        match out {
            Some(v) => groups_of(s@, allow_quad) == Some(v@),
            None => groups_of(s@, allow_quad) is None,
        },
    decreases s@.len(),
{
    let n = s.len();
    let c = find_char(s, ':', 0);
    if c >= n {
        match read_hex_group(s) {
            Some(g) => {
                let mut out: Vec<u16> = Vec::new();
                out.push(g);
                assert(out@ =~= seq![g]);
                Some(out)
            },
            None => {
                if !allow_quad {
                    return None;
                }
                match read_quad(s) {
                    Some(q) => {
                        let mut out: Vec<u16> = Vec::new();
                        out.push((q[0] as u16) * 256 + (q[1] as u16));
                        out.push((q[2] as u16) * 256 + (q[3] as u16));
                        assert(out@ =~= seq![pair_of(q@[0], q@[1]), pair_of(q@[2], q@[3])]);
                        Some(out)
                    },
                    None => None,
                }
            },
        }
    } else {
        let first = read_hex_group(&slice_of(s, 0, c));
        let rest = read_groups(&slice_of(s, c + 1, n), allow_quad);
        match (first, rest) {
            (Some(g), Some(tail)) => {
                let mut tail = tail;
                let mut out: Vec<u16> = Vec::new();
                out.push(g);
                let ghost before = tail@;
                out.append(&mut tail);
                assert(out@ =~= seq![g] + before);
                Some(out)
            },
            _ => None,
        }
    }
}

/// Reads the text of an IPv6 address.
fn read_ipv6(s: &Vec<char>) -> (out: Option<[u16; 8]>)
    ensures
        match out {
            Some(g) => ipv6_groups_of(s@) == Some(g@),
            None => ipv6_groups_of(s@) is None,
        },
{
    let n = s.len();
    let i = find_colons(s);
    let mut groups: [u16; 8] = [0u16; 8];
    if i >= n {
        match read_groups(s, true) {
            Some(v) => {
                if v.len() != 8 {
                    return None;
                }
                let mut k: usize = 0;
                while k < 8
                    invariant
                        k <= 8,
                        v@.len() == 8,
                        forall|j: int| 0 <= j < k ==> groups@[j] == v@[j],
                    decreases 8 - k,
                {
                    groups.set(k, v[k]);
                    k += 1;
                }
                assert(groups@ =~= v@);
                Some(groups)
            },
            None => None,
        }
    } else {
        let head = if i == 0 {
            Some(Vec::new())
        } else {
            read_groups(&slice_of(s, 0, i), false)
        };
        let tail = if i + 2 >= n {
            Some(Vec::new())
        } else {
            read_groups(&slice_of(s, i + 2, n), true)
        };
        match (head, tail) {
            (Some(h), Some(t)) => {
                if h.len() > 7 || t.len() > 7 - h.len() {
                    return None;
                }
                let hn = h.len();
                let tn = t.len();
                let mut k: usize = 0;
                while k < hn
                    invariant
                        k <= hn,
                        hn == h@.len(),
                        hn <= 7,
                        forall|j: int| 0 <= j < k ==> groups@[j] == h@[j],
                        forall|j: int| k <= j < 8 ==> groups@[j] == 0,
                    decreases hn - k,
                {
                    groups.set(k, h[k]);
                    k += 1;
                }
                let mut m: usize = 0;
                while m < tn
                    invariant
                        m <= tn,
                        tn == t@.len(),
                        hn == h@.len(),
                        hn + tn <= 7,
                        forall|j: int| 0 <= j < hn ==> groups@[j] == h@[j],
                        forall|j: int| hn <= j < 8 - tn ==> groups@[j] == 0,
                        forall|j: int| 0 <= j < m ==> groups@[8 - tn + j] == t@[j],
                    decreases tn - m,
                {
                    groups.set(8 - tn + m, t[m]);
                    m += 1;
                }
                assert(groups@ =~= h@ + Seq::new((8 - hn - tn) as nat, |k: int| 0u16) + t@);
                Some(groups)
            },
            _ => None,
        }
    }
}

/// Reads the text of a socket address, such as `10.66.3.2:80` or
/// `[fe80::1%3]:80`.
pub fn parse_endpoint(text: &str) -> (out: Result<Endpoint, OnvifError>)
    ensures
        match out {
            Ok(e) => endpoint_of(text@) == Some(e@),
            Err(e) => endpoint_of(text@) is None && e == OnvifError::AddressParseError,
        },
{
    let chars = chars_of(text);
    let n = chars.len();
    if n > 0 && chars[0] == '[' {
        let close = find_char(&chars, ']', 1);
        if close >= n || n - close < 2 || chars[close + 1] != ':' {
            return Err(OnvifError::AddressParseError);
        }
        let body = slice_of(&chars, 1, close);
        let pct = find_char(&body, '%', 0);
        let groups = if pct < body.len() {
            read_ipv6(&slice_of(&body, 0, pct))
        } else {
            read_ipv6(&body)
        };
        let scope = if pct < body.len() {
            read_number(&slice_of(&body, pct + 1, body.len()), 0xffff_ffff)
        } else {
            Some(0)
        };
        let port = read_number(&slice_of(&chars, close + 2, n), 65535);
        match (groups, scope, port) {
            (Some(g), Some(s), Some(p)) => Ok(
                Endpoint { host: HostAddress::V6(g), port: p as u16, scope_id: s as u32 },
            ),
            _ => Err(OnvifError::AddressParseError),
        }
    } else {
        let colon = find_char(&chars, ':', 0);
        if colon >= n {
            return Err(OnvifError::AddressParseError);
        }
        let quad = read_quad(&slice_of(&chars, 0, colon));
        let port = read_number(&slice_of(&chars, colon + 1, n), 65535);
        match (quad, port) {
            (Some(q), Some(p)) => Ok(
                Endpoint { host: HostAddress::V4(q), port: p as u16, scope_id: 0 },
            ),
            _ => Err(OnvifError::AddressParseError),
        }
    }
}

/// The character that writes a digit.
pub open spec fn digit_char(d: nat) -> char
    recommends
        d < 10,
{
    (('0' as u8) + (d as u8)) as char
}

/// The character that writes a hexadecimal digit, in lower case.
pub open spec fn hex_digit_char(d: nat) -> char
    recommends
        d < 16,
{
    if d < 10 {
        digit_char(d)
    } else {
        (('a' as u8) + ((d - 10) as u8)) as char
    }
}

/// A number in decimal, without zeros in front.
pub open spec fn decimal_of(n: nat) -> Seq<char>
    decreases n,
{
    if n < 10 {
        seq![digit_char(n)]
    } else {
        decimal_of(n / 10).push(digit_char(n % 10))
    }
}

/// A number in lower-case hexadecimal, without zeros in front.
pub open spec fn hex_of(n: nat) -> Seq<char>
    decreases n,
{
    if n < 16 {
        seq![hex_digit_char(n)]
    } else {
        hex_of(n / 16).push(hex_digit_char(n % 16))
    }
}

/// Four octets in decimal with dots between them.
pub open spec fn dotted(o: Seq<u8>) -> Seq<char> {
    decimal_of(o[0] as nat) + seq!['.'] + decimal_of(o[1] as nat) + seq!['.'] + decimal_of(
        o[2] as nat,
    ) + seq!['.'] + decimal_of(o[3] as nat)
}

/// The groups from index `from` up to `to` in hexadecimal, with colons
/// between them.
pub open spec fn joined_groups(g: Seq<u16>, from: int, to: int) -> Seq<char>
    decreases to - from,
{
    if from >= to {
        Seq::empty()
    } else if from + 1 == to {
        hex_of(g[from] as nat)
    } else {
        joined_groups(g, from, to - 1) + seq![':'] + hex_of(g[to - 1] as nat)
    }
}

/// How many groups of zero stand in a row from index `i` on.
pub open spec fn zero_run_at(g: Seq<u16>, i: int) -> nat
    decreases 8 - i,
{
    if i < 0 || i >= 8 || g[i] != 0 {
        0
    } else {
        1 + zero_run_at(g, i + 1)
    }
}

/// Where the longest run of zero groups begins, looking from index `i` on;
/// of two runs of one length the first.
pub open spec fn longest_zero_run_from(g: Seq<u16>, i: int) -> int
    decreases 8 - i,
{
    if i < 0 || i >= 7 {
        7
    } else {
        let later = longest_zero_run_from(g, i + 1);
        if zero_run_at(g, i) >= zero_run_at(g, later) {
            i
        } else {
            later
        }
    }
}

/// The text of an IPv6 address: groups in lower-case hexadecimal without
/// zeros in front, and a double colon in place of the longest run of two or
/// more groups of zero.
pub open spec fn ipv6_text_of(g: Seq<u16>) -> Seq<char> {
    let start = longest_zero_run_from(g, 0);
    let len = zero_run_at(g, start);
    if len >= 2 {
        joined_groups(g, 0, start) + seq![':', ':'] + joined_groups(g, start + len, 8)
    } else {
        joined_groups(g, 0, 8)
    }
}

/// An IPv6 address that stands for an IPv4 address: five groups of zero and
/// one of ones in front of it.
pub open spec fn is_mapped(g: Seq<u16>) -> bool {
    g[0] == 0 && g[1] == 0 && g[2] == 0 && g[3] == 0 && g[4] == 0 && g[5] == 0xffff
}

/// The four octets in the last two groups.
pub open spec fn mapped_octets(g: Seq<u16>) -> Seq<u8> {
    seq![(g[6] / 256) as u8, (g[6] % 256) as u8, (g[7] / 256) as u8, (g[7] % 256) as u8]
}

/// Whether the host's text is that of an IPv6 address.
pub open spec fn writes_as_ipv6(host: HostModel) -> bool {
    match host {
        HostModel::V4(_) => false,
        HostModel::V6(g) => !is_mapped(g),
    }
}

/// The host in its canonical text. An IPv6 address that stands for an IPv4
/// address is written as that IPv4 address.
pub open spec fn host_text_of(host: HostModel) -> Seq<char> {
    match host {
        HostModel::V4(o) => dotted(o),
        HostModel::V6(g) => if is_mapped(g) {
            dotted(mapped_octets(g))
        } else {
            ipv6_text_of(g)
        },
    }
}

/// The authority of an endpoint: the host's canonical text, between square
/// brackets where it is that of an IPv6 address, a colon and the port in
/// decimal.
pub open spec fn authority_of(e: EndpointModel) -> Seq<char> {
    if writes_as_ipv6(e.host) {
        seq!['['] + host_text_of(e.host) + seq![']', ':'] + decimal_of(e.port)
    } else {
        host_text_of(e.host) + seq![':'] + decimal_of(e.port)
    }
}

/// Writes a number in decimal.
pub fn decimal_text(n: u64) -> (out: String)
    ensures
        out@ == decimal_of(n as nat),
    decreases n,
{
    let digit: u8 = (n % 10) as u8;
    let c: char = (48u8 + digit) as char;
    if n < 10 {
        let mut out = String::new();
        out.push(c);
        assert(out@ =~= seq![digit_char(n as nat)]);
        out
    } else {
        let mut out = decimal_text(n / 10);
        out.push(c);
        out
    }
}

/// Writes a number in lower-case hexadecimal.
pub fn hex_text(n: u16) -> (out: String)
    ensures
        out@ == hex_of(n as nat),
    decreases n,
{
    let digit: u8 = (n % 16) as u8;
    let c: char = if digit < 10 {
        (48u8 + digit) as char
    } else {
        (97u8 + (digit - 10)) as char
    };
    assert(c == hex_digit_char(digit as nat));
    if n < 16 {
        let mut out = String::new();
        out.push(c);
        assert(out@ =~= seq![hex_digit_char(n as nat)]);
        out
    } else {
        let mut out = hex_text(n / 16);
        out.push(c);
        out
    }
}

/// Writes four octets with dots between them.
fn dotted_text(o: &[u8; 4]) -> (out: String)
    ensures
        out@ == dotted(o@),
{
    let mut out = decimal_text(o[0] as u64);
    out.push('.');
    out.append(decimal_text(o[1] as u64).as_str());
    out.push('.');
    out.append(decimal_text(o[2] as u64).as_str());
    out.push('.');
    out.append(decimal_text(o[3] as u64).as_str());
    assert(out@ =~= dotted(o@));
    out
}

/// Adds the groups from `from` up to `to`, with colons between them.
fn push_groups(out: &mut String, g: &[u16; 8], from: usize, to: usize)
    requires
        from <= to <= 8,
    ensures
        final(out)@ == old(out)@ + joined_groups(g@, from as int, to as int),
{
    let mut k: usize = from;
    assert(out@ =~= old(out)@ + joined_groups(g@, from as int, from as int));
    while k < to
        invariant
            from <= k <= to <= 8,
            out@ == old(out)@ + joined_groups(g@, from as int, k as int),
        decreases to - k,
    {
        if k > from {
            out.push(':');
        }
        out.append(hex_text(g[k]).as_str());
        assert(out@ =~= old(out)@ + joined_groups(g@, from as int, k + 1));
        k += 1;
    }
}

/// Whether the groups stand for an IPv4 address.
fn mapped(g: &[u16; 8]) -> (out: bool)
    ensures
        out == is_mapped(g@),
{
    g[0] == 0 && g[1] == 0 && g[2] == 0 && g[3] == 0 && g[4] == 0 && g[5] == 0xffff
}

/// Writes the canonical text of an IPv6 address.
fn ipv6_text(g: &[u16; 8]) -> (out: String)
    ensures
        out@ == ipv6_text_of(g@),
{
    let mut i: usize = 8;
    let mut run: usize = 0;
    let mut best: usize = 7;
    let mut best_len: usize = 0;
    while i > 0
        invariant
            i <= 8,
            run == zero_run_at(g@, i as int),
            run <= 8 - i,
            best <= 7,
            best_len <= 8 - best,
            i <= 7 ==> best == longest_zero_run_from(g@, i as int) && best_len == zero_run_at(
                g@,
                best as int,
            ),
        decreases i,
    {
        i -= 1;
        run = if g[i] == 0 {
            run + 1
        } else {
            0
        };
        if i == 7 || run >= best_len {
            best = i;
            best_len = run;
        }
    }
    let mut out = String::new();
    if best_len >= 2 {
        push_groups(&mut out, g, 0, best);
        out.push(':');
        out.push(':');
        push_groups(&mut out, g, best + best_len, 8);
        assert(out@ =~= ipv6_text_of(g@));
    } else {
        push_groups(&mut out, g, 0, 8);
        assert(out@ =~= ipv6_text_of(g@));
    }
    out
}

impl Endpoint {
    /// The host in its canonical text.
    pub fn host_text(&self) -> (out: String)
        ensures
            out@ == host_text_of(self@.host),
    {
        match &self.host {
            HostAddress::V4(o) => dotted_text(o),
            HostAddress::V6(g) => {
                if mapped(g) {
                    let o: [u8; 4] = [
                        (g[6] / 256) as u8,
                        (g[6] % 256) as u8,
                        (g[7] / 256) as u8,
                        (g[7] % 256) as u8,
                    ];
                    assert(o@ =~= mapped_octets(g@));
                    dotted_text(&o)
                } else {
                    ipv6_text(g)
                }
            },
        }
    }

    /// Whether the host's text goes between square brackets in an authority.
    pub fn writes_as_ipv6(&self) -> (out: bool)
        ensures
            out == writes_as_ipv6(self@.host),
    {
        match &self.host {
            HostAddress::V4(_) => false,
            HostAddress::V6(g) => !mapped(g),
        }
    }

    /// The endpoint as it stands in a URI and in a `Host` header.
    pub fn authority(&self) -> (out: String)
        ensures
            out@ == authority_of(self@),
    {
        let host = self.host_text();
        let mut out = String::new();
        if self.writes_as_ipv6() {
            out.push('[');
            out.append(host.as_str());
            out.push(']');
        } else {
            out.append(host.as_str());
        }
        out.push(':');
        out.append(decimal_text(self.port as u64).as_str());
        assert(out@ =~= authority_of(self@));
        out
    }
}

} // verus!
