//! Parsing of decimal integers as `str::parse` reads them, and of the text
//! forms of connection and process ids.
use vstd::prelude::*;
use crate::model::{connect_id_text, process_id_text, ConnectId, ConnectIdView, ProcessId, ProcessIdView};
use crate::text::{decimal, digit_char, host_port, signed_decimal};

verus! {

/// An ASCII decimal digit.
pub open spec fn is_digit(c: char) -> bool {
    '0' <= c && c <= '9'
}

/// Every character is a decimal digit.
pub open spec fn all_digits(s: Seq<char>) -> bool {
    forall|i: int| 0 <= i < s.len() ==> is_digit(#[trigger] s[i])
}

/// The value of a string of decimal digits.
pub open spec fn digits_value(s: Seq<char>) -> nat
    decreases s.len(),
{
    if s.len() == 0 {
        0
    } else {
        digits_value(s.drop_last()) * 10 + ((s.last() as nat) - ('0' as nat)) as nat
    }
}

/// The integer a string denotes as `str::parse` reads it: an optional `+`
/// (or `-` when `signed`), then one or more decimal digits.
pub open spec fn parsed_int(s: Seq<char>, signed: bool) -> Option<int> {
    if s.len() == 0 {
        None
    } else if s[0] == '+' || (signed && s[0] == '-') {
        let d = s.drop_first();
        if d.len() == 0 || !all_digits(d) {
            None
        } else if s[0] == '-' {
            Some(-(digits_value(d) as int))
        } else {
            Some(digits_value(d) as int)
        }
    } else if all_digits(s) {
        Some(digits_value(s) as int)
    } else {
        None
    }
}

/// The value parsed when it lies in `lo..=hi`, else `None`.
pub open spec fn parsed_in(s: Seq<char>, signed: bool, lo: int, hi: int) -> Option<int> {
    match parsed_int(s, signed) {
        Some(v) => if lo <= v <= hi {
            Some(v)
        } else {
            None
        },
        None => None,
    }
}

/// Digits of the decimal rendering parse back to the number.
pub proof fn lemma_decimal_parses(n: nat)
    ensures
        all_digits(decimal(n)),
        decimal(n).len() > 0,
        digits_value(decimal(n)) == n,
        !decimal(n).contains('-'),
        !decimal(n).contains(':'),
        decimal(n)[0] != '+' && decimal(n)[0] != '-',
    decreases n,
{
    if n >= 10 {
        lemma_decimal_parses(n / 10);
        let p = decimal(n / 10);
        assert(decimal(n) == p.push(digit_char(n % 10)));
        assert(decimal(n).drop_last() =~= p);
        assert((digit_char(n % 10) as nat) == 48 + n % 10);
        assert(digits_value(decimal(n)) == digits_value(p) * 10 + n % 10);
        assert(n == (n / 10) * 10 + n % 10);
        assert forall|i: int| 0 <= i < decimal(n).len() implies is_digit(#[trigger] decimal(n)[i]) by {
            if i < p.len() {
                assert(decimal(n)[i] == p[i]);
            }
        }
        if decimal(n).contains('-') {
            let i = choose|i: int| 0 <= i < decimal(n).len() && decimal(n)[i] == '-';
            assert(is_digit(decimal(n)[i]));
        }
        if decimal(n).contains(':') {
            let i = choose|i: int| 0 <= i < decimal(n).len() && decimal(n)[i] == ':';
            assert(is_digit(decimal(n)[i]));
        }
        assert(decimal(n)[0] == p[0]);
    } else {
        assert((digit_char(n) as nat) == 48 + n);
        assert(decimal(n).drop_last() =~= Seq::<char>::empty());
        assert(decimal(n).last() == digit_char(n));
        assert(digits_value(Seq::<char>::empty()) == 0);
        assert(digits_value(decimal(n)) == n);
        if decimal(n).contains('-') {
            let i = choose|i: int| 0 <= i < decimal(n).len() && decimal(n)[i] == '-';
            assert(i == 0);
        }
        if decimal(n).contains(':') {
            let i = choose|i: int| 0 <= i < decimal(n).len() && decimal(n)[i] == ':';
            assert(i == 0);
        }
    }
}

/// A number's decimal rendering parses back to it.
pub proof fn lemma_decimal_round_trip(n: nat, signed: bool)
    ensures
        parsed_int(decimal(n), signed) == Some(n as int),
{
    lemma_decimal_parses(n);
}

/// A signed rendering parses back to the number when signs are allowed.
pub proof fn lemma_signed_decimal_round_trip(n: int)
    ensures
        parsed_int(signed_decimal(n), true) == Some(n),
{
    if n < 0 {
        lemma_decimal_parses((-n) as nat);
        let s = signed_decimal(n);
        assert(s.drop_first() =~= decimal((-n) as nat));
    } else {
        lemma_decimal_parses(n as nat);
    }
}

/// Parses `s` as `str::parse` does for an integer type whose range is
/// `lo..=hi` (signed when `signed`).
pub fn parse_bounded(s: &str, signed: bool, lo: i64, hi: i64) -> (r: Option<i64>)
    requires
        lo <= 0 <= hi,
    ensures
        match r {
            Some(v) => parsed_in(s@, signed, lo as int, hi as int) == Some(v as int),
            None => parsed_in(s@, signed, lo as int, hi as int) is None,
        },
{
    let n = s.unicode_len();
    if n == 0 {
        return None;
    }
    let first = s.get_char(0);
    let negative = signed && first == '-';
    let start: usize = if first == '+' || negative { 1 } else { 0 };
    if start == n {
        return None;
    }
    let ghost d = s@.subrange(start as int, n as int);
    assert(start == 1 ==> d =~= s@.drop_first());
    assert(start == 0 ==> d =~= s@);
    let limit: u64 = 0x8000_0000_0000_0000;
    let mut acc: u64 = 0;
    let mut over = false;
    let mut i: usize = start;
    assert(d.take(0) =~= Seq::<char>::empty());
    while i < n
        invariant
            start <= i <= n,
            n == s@.len(),
            n > 0,
            s@[0] == first,
            d == (if start == 1 {
                s@.drop_first()
            } else {
                s@
            }),
            start == 1 <==> (first == '+' || (signed && first == '-')),
            start <= 1,
            negative == (signed && first == '-'),
            d == s@.subrange(start as int, n as int),
            all_digits(d.take((i - start) as int)),
            !over ==> acc == digits_value(d.take((i - start) as int)) && acc <= limit,
            over ==> digits_value(d.take((i - start) as int)) > limit,
            limit == 0x8000_0000_0000_0000u64,
        decreases n - i,
    {
        let c = s.get_char(i);
        let ghost k = (i - start) as int;
        assert(d[k] == c);
        if !('0' <= c && c <= '9') {
            proof {
                assert(!is_digit(d[k]));
                assert(!all_digits(d));
                assert(s@[0] == first);
                if start == 1 {
                    assert(d =~= s@.drop_first());
                } else {
                    assert(d =~= s@);
                }
            }
            return None;
        }
        assert(d.take(k + 1).drop_last() =~= d.take(k));
        assert(d.take(k + 1).last() == c);
        assert(all_digits(d.take(k + 1))) by {
            assert forall|j: int| 0 <= j < k + 1 implies is_digit(#[trigger] d.take(k + 1)[j]) by {
                if j < k {
                    assert(d.take(k + 1)[j] == d.take(k)[j]);
                }
            }
        }
        let digit: u64 = (c as u64) - 48;
        if !over {
            if acc > (limit - digit) / 10 {
                over = true;
                assert(digits_value(d.take(k + 1)) == acc * 10 + digit);
                assert(acc * 10 + digit > limit) by (nonlinear_arith)
                    requires
                        acc > (limit - digit) / 10,
                        digit <= 9,
                        limit == 0x8000_0000_0000_0000u64,
                ;
            } else {
                assert(acc * 10 + digit <= limit) by (nonlinear_arith)
                    requires
                        acc <= (limit - digit) / 10,
                        digit <= 9,
                        limit == 0x8000_0000_0000_0000u64,
                ;
                acc = acc * 10 + digit;
            }
        } else {
            assert(digits_value(d.take(k + 1)) >= digits_value(d.take(k))) by (nonlinear_arith)
                requires
                    digits_value(d.take(k + 1)) == digits_value(d.take(k)) * 10 + digit,
            ;
        }
        i = i + 1;
    }
    assert(d.take((n - start) as int) =~= d);
    if over {
        return None;
    }
    let v: i128 = if negative { -(acc as i128) } else { acc as i128 };
    if (lo as i128) <= v && v <= (hi as i128) {
        Some(v as i64)
    } else {
        None
    }
}

/// Parses a port as `str::parse::<u16>` does.
pub fn parse_u16(s: &str) -> (r: Option<u16>)
    ensures
        match r {
            Some(v) => parsed_in(s@, false, 0, u16::MAX as int) == Some(v as int),
            None => parsed_in(s@, false, 0, u16::MAX as int) is None,
        },
{
    match parse_bounded(s, false, 0, 0xffff) {
        Some(v) => Some(v as u16),
        None => None,
    }
}

/// Parses as `str::parse::<i64>` does.
pub fn parse_i64(s: &str) -> (r: Option<i64>)
    ensures
        match r {
            Some(v) => parsed_in(s@, true, i64::MIN as int, i64::MAX as int) == Some(v as int),
            None => parsed_in(s@, true, i64::MIN as int, i64::MAX as int) is None,
        },
{
    parse_bounded(s, true, i64::MIN, i64::MAX)
}

/// Parses as `str::parse::<i32>` does.
pub fn parse_i32(s: &str) -> (r: Option<i32>)
    ensures
        match r {
            Some(v) => parsed_in(s@, true, i32::MIN as int, i32::MAX as int) == Some(v as int),
            None => parsed_in(s@, true, i32::MIN as int, i32::MAX as int) is None,
        },
{
    match parse_bounded(s, true, i32::MIN as i64, i32::MAX as i64) {
        Some(v) => Some(v as i32),
        None => None,
    }
}

/// Position of the first `c` in `s`, or -1.
pub open spec fn first_index(s: Seq<char>, c: char) -> int
    decreases s.len(),
{
    if s.len() == 0 {
        -1
    } else if s[0] == c {
        0
    } else {
        let p = first_index(s.drop_first(), c);
        if p < 0 {
            -1
        } else {
            p + 1
        }
    }
}

/// Position of the last `c` in `s`, or -1.
pub open spec fn last_index(s: Seq<char>, c: char) -> int
    decreases s.len(),
{
    if s.len() == 0 {
        -1
    } else if s.last() == c {
        s.len() - 1
    } else {
        last_index(s.drop_last(), c)
    }
}

/// A port as `parse().unwrap_or(0)` reads it.
pub open spec fn port_or_zero(t: Seq<char>) -> u16 {
    match parsed_in(t, false, 0, u16::MAX as int) {
        Some(v) => v as u16,
        None => 0,
    }
}

/// A timestamp as `parse().unwrap_or(0)` reads it.
pub open spec fn i64_or_zero(t: Seq<char>) -> i64 {
    match parsed_in(t, true, i64::MIN as int, i64::MAX as int) {
        Some(v) => v as i64,
        None => 0,
    }
}

/// A sequence number as `parse().unwrap_or(0)` reads it.
pub open spec fn i32_or_zero(t: Seq<char>) -> i32 {
    match parsed_in(t, true, i32::MIN as int, i32::MAX as int) {
        Some(v) => v as i32,
        None => 0,
    }
}

/// The connection id a text denotes: `clientHost:clientPort-serverHost:serverPort`,
/// split at the first `-` and each half at its last `:`; ports that do not
/// parse are 0. Text of another shape is all client host.
pub open spec fn connect_id_of(s: Seq<char>) -> ConnectIdView {
    let p = first_index(s, '-');
    let fallback = ConnectIdView {
        client_host_address: s,
        client_port: 0,
        session_host_address: Seq::empty(),
        session_port: 0,
    };
    if p < 0 {
        fallback
    } else {
        let a = s.subrange(0, p);
        let b = s.subrange(p + 1, s.len() as int);
        let qa = last_index(a, ':');
        let qb = last_index(b, ':');
        if qa < 0 || qb < 0 {
            fallback
        } else {
            ConnectIdView {
                client_host_address: a.subrange(0, qa),
                client_port: port_or_zero(a.subrange(qa + 1, a.len() as int)),
                session_host_address: b.subrange(0, qb),
                session_port: port_or_zero(b.subrange(qb + 1, b.len() as int)),
            }
        }
    }
}

/// The process id a text denotes: `host-timestamp-sequence`, split at the
/// first two `-`; numbers that do not parse are 0. Text with fewer than two
/// `-` is all host.
pub open spec fn process_id_of(s: Seq<char>) -> ProcessIdView {
    let p1 = first_index(s, '-');
    let fallback = ProcessIdView { host_address: s, timestamp: 0, sequence: 0 };
    if p1 < 0 {
        fallback
    } else {
        let rest = s.subrange(p1 + 1, s.len() as int);
        let p2 = first_index(rest, '-');
        if p2 < 0 {
            fallback
        } else {
            ProcessIdView {
                host_address: s.subrange(0, p1),
                timestamp: i64_or_zero(rest.subrange(0, p2)),
                sequence: i32_or_zero(rest.subrange(p2 + 1, rest.len() as int)),
            }
        }
    }
}

proof fn lemma_first_index(s: Seq<char>, c: char)
    ensures
        -1 <= first_index(s, c) < s.len(),
        first_index(s, c) >= 0 ==> s[first_index(s, c)] == c,
        forall|k: int| 0 <= k < first_index(s, c) ==> s[k] != c,
        first_index(s, c) == -1 ==> !s.contains(c),
    decreases s.len(),
{
    if s.len() > 0 {
        let t = s.drop_first();
        lemma_first_index(t, c);
        assert forall|k: int| 0 <= k < t.len() implies t[k] == s[k + 1] by {}
        if first_index(s, c) > 0 {
            assert forall|k: int| 0 <= k < first_index(s, c) implies s[k] != c by {
                if k > 0 {
                    assert(t[k - 1] == s[k]);
                }
            }
        }
        if first_index(s, c) == -1 {
            if s.contains(c) {
                let k = choose|k: int| 0 <= k < s.len() && s[k] == c;
                if k > 0 {
                    assert(t[k - 1] == c);
                }
            }
        }
    }
}

proof fn lemma_last_index(s: Seq<char>, c: char)
    ensures
        -1 <= last_index(s, c) < s.len(),
        last_index(s, c) >= 0 ==> s[last_index(s, c)] == c,
        forall|k: int| last_index(s, c) < k < s.len() ==> s[k] != c,
    decreases s.len(),
{
    if s.len() > 0 {
        lemma_last_index(s.drop_last(), c);
        assert forall|k: int| 0 <= k < s.len() - 1 implies s.drop_last()[k] == s[k] by {}
    }
}

proof fn lemma_first_index_at(a: Seq<char>, c: char, b: Seq<char>)
    requires
        !a.contains(c),
    ensures
        first_index(a + seq![c] + b, c) == a.len(),
    decreases a.len(),
{
    let s = a + seq![c] + b;
    if a.len() == 0 {
        assert(s[0] == c);
    } else {
        assert(s[0] == a[0]);
        assert(a[0] != c);
        assert(s.drop_first() =~= a.drop_first() + seq![c] + b);
        assert(!a.drop_first().contains(c)) by {
            if a.drop_first().contains(c) {
                let k = choose|k: int| 0 <= k < a.drop_first().len() && a.drop_first()[k] == c;
                assert(a[k + 1] == c);
            }
        }
        lemma_first_index_at(a.drop_first(), c, b);
    }
}

proof fn lemma_last_index_at(a: Seq<char>, c: char, b: Seq<char>)
    requires
        !b.contains(c),
    ensures
        last_index(a + seq![c] + b, c) == a.len(),
    decreases b.len(),
{
    let s = a + seq![c] + b;
    if b.len() == 0 {
        assert(s.last() == c);
    } else {
        assert(s.last() == b.last());
        assert(b[b.len() - 1] != c);
        assert(s.drop_last() =~= a + seq![c] + b.drop_last());
        assert(!b.drop_last().contains(c)) by {
            if b.drop_last().contains(c) {
                let k = choose|k: int| 0 <= k < b.drop_last().len() && b.drop_last()[k] == c;
                assert(b[k] == c);
            }
        }
        lemma_last_index_at(a, c, b.drop_last());
    }
}

/// Reading back the text of a connection id gives the connection id, when
/// the client host has no `-`.
pub proof fn lemma_connect_id_round_trip(c: ConnectIdView)
    requires
        !c.client_host_address.contains('-'),
    ensures
        connect_id_of(connect_id_text(c)) == c,
{
    let dc = decimal(c.client_port as nat);
    let ds = decimal(c.session_port as nat);
    lemma_decimal_parses(c.client_port as nat);
    lemma_decimal_parses(c.session_port as nat);
    let a = host_port(c.client_host_address, c.client_port as nat);
    let b = host_port(c.session_host_address, c.session_port as nat);
    let s = connect_id_text(c);
    assert(s == a + seq!['-'] + b);
    assert(!a.contains('-')) by {
        if a.contains('-') {
            let k = choose|k: int| 0 <= k < a.len() && a[k] == '-';
            if k < c.client_host_address.len() {
                assert(c.client_host_address[k] == '-');
            } else if k > c.client_host_address.len() {
                assert(dc[k - c.client_host_address.len() - 1] == '-');
            }
        }
    }
    lemma_first_index_at(a, '-', b);
    assert(s.subrange(0, a.len() as int) =~= a);
    assert(s.subrange((a.len() + 1) as int, s.len() as int) =~= b);
    lemma_last_index_at(c.client_host_address, ':', dc);
    lemma_last_index_at(c.session_host_address, ':', ds);
    assert(a.subrange(0, c.client_host_address.len() as int) =~= c.client_host_address);
    assert(a.subrange((c.client_host_address.len() + 1) as int, a.len() as int) =~= dc);
    assert(b.subrange(0, c.session_host_address.len() as int) =~= c.session_host_address);
    assert(b.subrange((c.session_host_address.len() + 1) as int, b.len() as int) =~= ds);
    lemma_decimal_round_trip(c.client_port as nat, false);
    lemma_decimal_round_trip(c.session_port as nat, false);
}

/// Reading back the text of a process id gives the process id, when the
/// host has no `-` and the timestamp is not negative.
pub proof fn lemma_process_id_round_trip(p: ProcessIdView)
    requires
        !p.host_address.contains('-'),
        p.timestamp >= 0,
    ensures
        process_id_of(process_id_text(p)) == p,
{
    let dt = decimal(p.timestamp as nat);
    let sq = signed_decimal(p.sequence as int);
    lemma_decimal_parses(p.timestamp as nat);
    let s = process_id_text(p);
    let rest = dt + seq!['-'] + sq;
    assert(s =~= p.host_address + seq!['-'] + rest);
    lemma_first_index_at(p.host_address, '-', rest);
    assert(s.subrange(0, p.host_address.len() as int) =~= p.host_address);
    assert(s.subrange((p.host_address.len() + 1) as int, s.len() as int) =~= rest);
    lemma_first_index_at(dt, '-', sq);
    assert(rest.subrange(0, dt.len() as int) =~= dt);
    assert(rest.subrange((dt.len() + 1) as int, rest.len() as int) =~= sq);
    lemma_decimal_round_trip(p.timestamp as nat, true);
    lemma_signed_decimal_round_trip(p.sequence as int);
}

/// Position of the first `c` in `s`.
pub fn find_first(s: &str, c: char) -> (r: Option<usize>)
    ensures
        match r {
            Some(i) => i < s@.len() && i as int == first_index(s@, c),
            None => first_index(s@, c) == -1,
        },
{
    proof {
        lemma_first_index(s@, c);
    }
    let n = s.unicode_len();
    let mut i: usize = 0;
    while i < n
        invariant
            i <= n,
            n == s@.len(),
            forall|k: int| 0 <= k < i ==> s@[k] != c,
        decreases n - i,
    {
        if s.get_char(i) == c {
            proof {
                lemma_first_index(s@, c);
            }
            return Some(i);
        }
        i = i + 1;
    }
    proof {
        lemma_first_index(s@, c);
        if first_index(s@, c) >= 0 {
            assert(s@[first_index(s@, c)] == c);
        }
    }
    None
}

/// Position of the last `c` in `s`.
pub fn find_last(s: &str, c: char) -> (r: Option<usize>)
    ensures
        match r {
            Some(i) => i < s@.len() && i as int == last_index(s@, c),
            None => last_index(s@, c) == -1,
        },
{
    proof {
        lemma_last_index(s@, c);
    }
    let n = s.unicode_len();
    let mut i: usize = n;
    while i > 0
        invariant
            i <= n,
            n == s@.len(),
            forall|k: int| i <= k < n ==> s@[k] != c,
        decreases i,
    {
        if s.get_char(i - 1) == c {
            proof {
                lemma_last_index(s@, c);
                if last_index(s@, c) != i - 1 {
                    assert(s@[last_index(s@, c)] == c);
                }
            }
            return Some(i - 1);
        }
        i = i - 1;
    }
    proof {
        lemma_last_index(s@, c);
        if last_index(s@, c) >= 0 {
            assert(s@[last_index(s@, c)] == c);
        }
    }
    None
}

fn port_or_zero_exec(t: &str) -> (r: u16)
    ensures
        r == port_or_zero(t@),
{
    match parse_u16(t) {
        Some(v) => v,
        None => 0,
    }
}

/// Reads a connection id from its text.
pub fn parse_connect_id(s: &str) -> (c: ConnectId)
    ensures
        c@ == connect_id_of(s@),
{
    let n = s.unicode_len();
    match find_first(s, '-') {
        Some(p) => {
            let a = s.substring_char(0, p);
            let b = s.substring_char(p + 1, n);
            match (find_last(a, ':'), find_last(b, ':')) {
                (Some(qa), Some(qb)) => {
                    let la = a.unicode_len();
                    let lb = b.unicode_len();
                    let client_host = a.substring_char(0, qa);
                    let client_port = port_or_zero_exec(a.substring_char(qa + 1, la));
                    let server_host = b.substring_char(0, qb);
                    let server_port = port_or_zero_exec(b.substring_char(qb + 1, lb));
                    ConnectId::new(client_host, client_port, server_host, server_port)
                },
                _ => {
                    let c = ConnectId::new(s, 0, "", 0);
                    proof {
                        reveal_strlit("");
                    }
                    assert(c@.session_host_address =~= Seq::<char>::empty());
                    assert(c@ == connect_id_of(s@));
                    c
                },
            }
        },
        None => {
            let c = ConnectId::new(s, 0, "", 0);
            proof {
                reveal_strlit("");
            }
            assert(c@.session_host_address =~= Seq::<char>::empty());
            assert(c@ == connect_id_of(s@));
            c
        },
    }
}

/// Reads a process id from its text.
pub fn parse_process_id(s: &str) -> (p: ProcessId)
    ensures
        p@ == process_id_of(s@),
{
    let n = s.unicode_len();
    match find_first(s, '-') {
        Some(p1) => {
            let rest = s.substring_char(p1 + 1, n);
            match find_first(rest, '-') {
                Some(p2) => {
                    let lr = rest.unicode_len();
                    let host = s.substring_char(0, p1);
                    let ts = match parse_i64(rest.substring_char(0, p2)) {
                        Some(v) => v,
                        None => 0,
                    };
                    let seq = match parse_i32(rest.substring_char(p2 + 1, lr)) {
                        Some(v) => v,
                        None => 0,
                    };
                    ProcessId::new(host, ts, seq)
                },
                None => ProcessId::new(s, 0, 0),
            }
        },
        None => ProcessId::new(s, 0, 0),
    }
}

} // verus!
