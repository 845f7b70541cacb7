//! Decoding of record fields: transaction types, identifiers and amounts.
use vstd::prelude::*;

use crate::data_models::{Amount, ClientId, PaymentRecord, TransactionId, TransactionType};

verus! {

pub open spec fn is_digit(b: u8) -> bool {
    48 <= b <= 57
}

pub open spec fn all_digits(s: Seq<u8>) -> bool {
    forall|i: int| 0 <= i < s.len() ==> is_digit(#[trigger] s[i])
}

/// The number written by a sequence of decimal digits.
pub open spec fn digits_value(s: Seq<u8>) -> nat
    decreases s.len(),
{
    if s.len() == 0 {
        0
    } else {
        digits_value(s.drop_last()) * 10 + (s.last() - 48) as nat
    }
}

pub open spec fn capped(v: nat, cap: nat) -> nat {
    if v > cap { cap + 1 } else { v }
}

/// A non-empty run of decimal digits whose value is at most `max`.
pub open spec fn uint_value(s: Seq<u8>, max: nat) -> Option<nat> {
    if s.len() > 0 && all_digits(s) && digits_value(s) <= max {
        Some(digits_value(s))
    } else {
        None
    }
}

pub open spec fn pow10(n: nat) -> nat
    decreases n,
{
    if n == 0 { 1 } else { 10 * pow10((n - 1) as nat) }
}

/// `s` splits at `p` into a non-empty whole part and a fraction of at most four
/// digits.
pub open spec fn dot_split(s: Seq<u8>, p: int) -> bool {
    &&& 0 < p < s.len()
    &&& s[p] == 46
    &&& all_digits(s.take(p))
    &&& all_digits(s.skip(p + 1))
    &&& s.len() - p - 1 <= 4
}

/// The value, in ten-thousandths, of an unsigned decimal number.
pub open spec fn magnitude(s: Seq<u8>) -> Option<nat> {
    if s.len() > 0 && all_digits(s) {
        Some(digits_value(s) * 10000)
    } else if exists|p: int| dot_split(s, p) {
        let p = choose|p: int| dot_split(s, p);
        Some(digits_value(s.take(p)) * 10000 + digits_value(s.skip(p + 1)) * pow10(
            (4 - (s.len() - p - 1)) as nat,
        ))
    } else {
        None
    }
}

pub open spec fn sign_len(s: Seq<u8>) -> int {
    if s.len() > 0 && s[0] == 45 { 1 } else { 0 }
}

/// The value, in ten-thousandths, of a decimal number with an optional leading
/// minus sign and at most four fractional digits, if it is representable.
pub open spec fn amount_value(s: Seq<u8>) -> Option<int> {
    match magnitude(s.skip(sign_len(s))) {
        Some(m) => if m <= i64::MAX {
            Some(if sign_len(s) == 1 { -m } else { m as int })
        } else {
            None
        },
        None => None,
    }
}

/// The transaction type named by a field.
pub open spec fn type_value(s: Seq<u8>) -> Option<TransactionType> {
    if s == seq![100u8, 101, 112, 111, 115, 105, 116] {
        Some(TransactionType::Deposit)
    } else if s == seq![119u8, 105, 116, 104, 100, 114, 97, 119, 97, 108] {
        Some(TransactionType::Withdrawal)
    } else if s == seq![100u8, 105, 115, 112, 117, 116, 101] {
        Some(TransactionType::Dispute)
    } else if s == seq![114u8, 101, 115, 111, 108, 118, 101] {
        Some(TransactionType::Resolve)
    } else if s == seq![99u8, 104, 97, 114, 103, 101, 98, 97, 99, 107] {
        Some(TransactionType::Chargeback)
    } else {
        None
    }
}

/// Reads the digits of `s[start..end]`; a value above `cap` is reported as
/// `cap + 1`.
fn parse_digits(s: &Vec<u8>, start: usize, end: usize, cap: u64) -> (r: Option<u64>)
    requires
        start <= end <= s@.len(),
        cap <= 1_000_000_000_000_000,
    ensures
        r is Some <==> all_digits(s@.subrange(start as int, end as int)),
        r is Some ==> r->Some_0 == capped(digits_value(s@.subrange(start as int, end as int)), cap as nat),
{
    let mut acc: u64 = 0;
    let mut i: usize = start;
    while i < end
        invariant
            start <= i <= end <= s@.len(),
            cap <= 1_000_000_000_000_000,
            all_digits(s@.subrange(start as int, i as int)),
            acc == capped(digits_value(s@.subrange(start as int, i as int)), cap as nat),
        decreases end - i,
    {
        let b = s[i];
        if b < 48 || b > 57 {
            proof {
                let sub = s@.subrange(start as int, end as int);
                assert(sub[i - start] == b);
            }
            return None;
        }
        proof {
            let a = s@.subrange(start as int, i as int);
            let n = s@.subrange(start as int, i as int + 1);
            assert(n.drop_last() =~= a);
            assert(n.last() == b);
        }
        let d = (b - 48) as u64;
        if acc > cap {
            acc = cap + 1;
        } else {
            let next = acc * 10 + d;
            acc = if next > cap { cap + 1 } else { next };
        }
        i = i + 1;
    }
    Some(acc)
}

/// Decodes an unsigned decimal field of at most `max`.
pub fn parse_uint(s: &Vec<u8>, max: u64) -> (r: Option<u64>)
    requires
        max <= 1_000_000_000_000_000,
    ensures
        match uint_value(s@, max as nat) {
            Some(v) => r == Some(v as u64),
            None => r is None,
        },
{
    if s.len() == 0 {
        return None;
    }
    proof {
        assert(s@.subrange(0, s@.len() as int) =~= s@);
    }
    match parse_digits(s, 0, s.len(), max) {
        Some(v) => if v <= max { Some(v) } else { None },
        None => None,
    }
}

/// Largest whole part whose value in ten-thousandths may fit an `i64`.
const WHOLE_CAP: u64 = 922337203685477;

/// The magnitude of `s[b0..]` when it holds no point: its value in
/// ten-thousandths, exact wherever it fits an `i64`.
fn parse_whole(s: &Vec<u8>, b0: usize) -> (r: Option<u64>)
    requires
        b0 <= s@.len(),
        forall|j: int| b0 <= j < s@.len() ==> s@[j] != 46,
    ensures
        match magnitude(s@.skip(b0 as int)) {
            Some(m) => r is Some && (r->Some_0 <= i64::MAX <==> m <= i64::MAX) && (m <= i64::MAX ==> r->Some_0 == m),
            None => r is None,
        },
{
    let ghost body = s@.skip(b0 as int);
    assert(s@.subrange(b0 as int, s@.len() as int) =~= body);
    assert(forall|q: int| !dot_split(body, q)) by {
        assert forall|q: int| !dot_split(body, q) by {
            if 0 <= q < body.len() {
                assert(body[q] == s@[b0 + q]);
            }
        }
    }
    if s.len() == b0 {
        return None;
    }
    match parse_digits(s, b0, s.len(), WHOLE_CAP) {
        Some(w) => Some(w * 10000),
        None => None,
    }
}

/// The magnitude of `s[b0..]` whose first point stands at `p`: its value in
/// ten-thousandths, exact wherever it fits an `i64`.
fn parse_dotted(s: &Vec<u8>, b0: usize, p: usize) -> (r: Option<u64>)
    requires
        b0 <= p < s@.len(),
        s@[p as int] == 46,
        forall|j: int| b0 <= j < p ==> s@[j] != 46,
    ensures
        match magnitude(s@.skip(b0 as int)) {
            Some(m) => r is Some && (r->Some_0 <= i64::MAX <==> m <= i64::MAX) && (m <= i64::MAX ==> r->Some_0 == m),
            None => r is None,
        },
{
    let len = s.len();
    let ghost body = s@.skip(b0 as int);
    let ghost pb = (p - b0) as int;
    assert(body[pb] == 46);
    assert(!all_digits(body));
    assert forall|q: int| dot_split(body, q) implies q == pb by {
        if q < pb {
            assert(s@[b0 + q] == 46);
        } else if q > pb {
            assert(body.take(q)[pb] == 46);
        }
    }
    let flen = len - p - 1;
    if p == b0 || flen > 4 {
        return None;
    }
    assert(s@.subrange(b0 as int, p as int) =~= body.take(pb));
    assert(s@.subrange(p as int + 1, len as int) =~= body.skip(pb + 1));
    let w = match parse_digits(s, b0, p, WHOLE_CAP) {
        Some(w) => w,
        None => {
            return None;
        },
    };
    let f = match parse_digits(s, p + 1, len, 9999) {
        Some(f) => f,
        None => {
            return None;
        },
    };
    assert(dot_split(body, pb));
    let scale: u64 = if flen == 0 {
        10000
    } else if flen == 1 {
        1000
    } else if flen == 2 {
        100
    } else if flen == 3 {
        10
    } else {
        1
    };
    proof {
        reveal_with_fuel(pow10, 5);
        assert(scale == pow10((4 - flen) as nat));
        lemma_digits_bound(body.skip(pb + 1));
        assert(pow10(flen as nat) <= 10000);
        assert(f == digits_value(body.skip(pb + 1)));
        assert(f * scale <= 9999 * 10000) by (nonlinear_arith)
            requires f <= 9999, scale <= 10000;
    }
    Some(w * 10000 + f * scale)
}

/// Decodes an amount: an optional minus sign, a whole part, and optionally a
/// point followed by up to four fractional digits. Amounts are exact in
/// ten-thousandths, so a fifth fractional digit, or a magnitude above
/// 922337203685477.5807, is refused rather than rounded.
pub fn parse_amount(s: &Vec<u8>) -> (r: Option<Amount>)
    ensures
        match amount_value(s@) {
            Some(v) => r == Some(Amount { value: v as i64 }),
            None => r is None,
        },
{
    let len = s.len();
    let b0: usize = if len > 0 && s[0] == 45 { 1 } else { 0 };
    assert(b0 as int == sign_len(s@));
    let mut p: usize = b0;
    while p < len && s[p] != 46
        invariant
            b0 <= p <= len == s@.len(),
            forall|j: int| b0 <= j < p ==> s@[j] != 46,
        decreases len - p,
    {
        p = p + 1;
    }
    let mag = if p == len {
        parse_whole(s, b0)
    } else {
        parse_dotted(s, b0, p)
    };
    match mag {
        None => None,
        Some(m) => if m > i64::MAX as u64 {
            None
        } else if b0 == 1 {
            Some(Amount { value: -(m as i64) })
        } else {
            Some(Amount { value: m as i64 })
        },
    }
}

proof fn lemma_digits_bound(s: Seq<u8>)
    requires
        all_digits(s),
    ensures
        digits_value(s) < pow10(s.len()),
    decreases s.len(),
{
    if s.len() > 0 {
        let t = s.drop_last();
        assert(all_digits(t)) by {
            assert forall|i: int| 0 <= i < t.len() implies is_digit(t[i]) by {
                assert(t[i] == s[i]);
            }
        }
        lemma_digits_bound(t);
        assert(is_digit(s[s.len() - 1]));
    }
}

fn bytes_eq(a: &Vec<u8>, b: &[u8]) -> (r: bool)
    ensures
        r == (a@ == b@),
{
    if a.len() != b.len() {
        return false;
    }
    let mut i: usize = 0;
    while i < a.len()
        invariant
            a@.len() == b@.len(),
            0 <= i <= a@.len(),
            forall|j: int| 0 <= j < i ==> a@[j] == b@[j],
        decreases a@.len() - i,
    {
        if a[i] != b[i] {
            return false;
        }
        i = i + 1;
    }
    proof {
        assert(a@ =~= b@);
    }
    true
}

/// Decodes a transaction type, written in lower case.
pub fn parse_type(s: &Vec<u8>) -> (r: Option<TransactionType>)
    ensures
        r == type_value(s@),
{
    if bytes_eq(s, &[100u8, 101, 112, 111, 115, 105, 116]) {
        Some(TransactionType::Deposit)
    } else if bytes_eq(s, &[119u8, 105, 116, 104, 100, 114, 97, 119, 97, 108]) {
        Some(TransactionType::Withdrawal)
    } else if bytes_eq(s, &[100u8, 105, 115, 112, 117, 116, 101]) {
        Some(TransactionType::Dispute)
    } else if bytes_eq(s, &[114u8, 101, 115, 111, 108, 118, 101]) {
        Some(TransactionType::Resolve)
    } else if bytes_eq(s, &[99u8, 104, 97, 114, 103, 101, 98, 97, 99, 107]) {
        Some(TransactionType::Chargeback)
    } else {
        None
    }
}

/// Where the columns of a record stand, as named by the header row.
#[derive(Debug, Clone, Copy, PartialEq, Eq, Structural)]
pub struct Columns {
    pub type_col: usize,
    pub client_col: usize,
    pub tx_col: usize,
    pub amount_col: Option<usize>,
}

/// The fields of one row as byte sequences.
pub open spec fn fields_view(row: Vec<Vec<u8>>) -> Seq<Seq<u8>> {
    row@.map_values(|f: Vec<u8>| f@)
}

/// The first position of `name` in the header `h`.
pub open spec fn column_index(h: Seq<Seq<u8>>, name: Seq<u8>) -> Option<int>
    decreases h.len(),
{
    if h.len() == 0 {
        None
    } else {
        match column_index(h.drop_last(), name) {
            Some(i) => Some(i),
            None => if h.last() == name { Some(h.len() - 1) } else { None },
        }
    }
}

pub open spec fn kind_column_name() -> Seq<u8> {
    seq![116u8, 121, 112, 101]
}

pub open spec fn client_name() -> Seq<u8> {
    seq![99u8, 108, 105, 101, 110, 116]
}

pub open spec fn tx_name() -> Seq<u8> {
    seq![116u8, 120]
}

pub open spec fn amount_name() -> Seq<u8> {
    seq![97u8, 109, 111, 117, 110, 116]
}

/// The columns named by a header row: `type`, `client` and `tx` are required,
/// `amount` is optional.
pub open spec fn columns_of(h: Seq<Seq<u8>>) -> Option<Columns> {
    match (column_index(h, kind_column_name()), column_index(h, client_name()), column_index(h, tx_name())) {
        (Some(t), Some(c), Some(x)) => Some(Columns {
            type_col: t as usize,
            client_col: c as usize,
            tx_col: x as usize,
            amount_col: match column_index(h, amount_name()) {
                Some(a) => Some(a as usize),
                None => None,
            },
        }),
        _ => None,
    }
}

/// The amount field of a row, if the row has a non-empty one.
pub open spec fn amount_field(c: Columns, row: Seq<Seq<u8>>) -> Option<Seq<u8>> {
    match c.amount_col {
        Some(a) => if a < row.len() && row[a as int].len() > 0 { Some(row[a as int]) } else { None },
        None => None,
    }
}

/// The record that a row holds, if each of its fields decodes.
pub open spec fn record_value(c: Columns, row: Seq<Seq<u8>>) -> Option<PaymentRecord> {
    if c.type_col < row.len() && c.client_col < row.len() && c.tx_col < row.len() {
        match (
            type_value(row[c.type_col as int]),
            uint_value(row[c.client_col as int], u16::MAX as nat),
            uint_value(row[c.tx_col as int], u32::MAX as nat),
        ) {
            (Some(t), Some(cl), Some(x)) => {
                let base = PaymentRecord {
                    transaction_type: t,
                    client: ClientId { value: cl as u16 },
                    tx: TransactionId { value: x as u32 },
                    amount: None,
                };
                match amount_field(c, row) {
                    None => Some(base),
                    Some(f) => match amount_value(f) {
                        Some(v) => Some(PaymentRecord { amount: Some(Amount { value: v as i64 }), ..base }),
                        None => None,
                    },
                }
            },
            _ => None,
        }
    } else {
        None
    }
}

fn find_column(header: &Vec<Vec<u8>>, name: &[u8]) -> (r: Option<usize>)
    ensures
        match column_index(fields_view(*header), name@) {
            Some(i) => r == Some(i as usize),
            None => r is None,
        },
{
    let ghost h = fields_view(*header);
    let mut i: usize = 0;
    while i < header.len()
        invariant
            0 <= i <= header@.len(),
            h == fields_view(*header),
            column_index(h.take(i as int), name@) is None,
        decreases header@.len() - i,
    {
        proof {
            assert(h.take(i as int + 1).drop_last() =~= h.take(i as int));
        }
        if bytes_eq(&header[i], name) {
            proof {
                assert(column_index(h.take(i as int + 1), name@) == Some(i as int));
                lemma_column_index_extends(h, name@, i as int + 1);
            }
            return Some(i);
        }
        i = i + 1;
    }
    proof {
        assert(h.take(i as int) =~= h);
    }
    None
}

/// A position found in a prefix stays the first one in the whole header.
proof fn lemma_column_index_extends(h: Seq<Seq<u8>>, name: Seq<u8>, n: int)
    requires
        0 <= n <= h.len(),
        column_index(h.take(n), name) is Some,
    ensures
        column_index(h, name) == column_index(h.take(n), name),
    decreases h.len() - n,
{
    if n < h.len() {
        assert(h.take(n + 1).drop_last() =~= h.take(n));
        lemma_column_index_extends(h, name, n + 1);
    } else {
        assert(h.take(n) =~= h);
    }
}

/// Finds the columns named by a header row.
pub fn parse_columns(header: &Vec<Vec<u8>>) -> (r: Option<Columns>)
    ensures
        r == columns_of(fields_view(*header)),
{
    let t = find_column(header, &[116u8, 121, 112, 101]);
    let c = find_column(header, &[99u8, 108, 105, 101, 110, 116]);
    let x = find_column(header, &[116u8, 120]);
    let a = find_column(header, &[97u8, 109, 111, 117, 110, 116]);
    match (t, c, x) {
        (Some(t), Some(c), Some(x)) => Some(Columns { type_col: t, client_col: c, tx_col: x, amount_col: a }),
        _ => None,
    }
}

/// Decodes the record that one row holds.
pub fn decode_record(cols: &Columns, row: &Vec<Vec<u8>>) -> (r: Option<PaymentRecord>)
    ensures
        r == record_value(*cols, fields_view(*row)),
{
    let ghost v = fields_view(*row);
    if cols.type_col >= row.len() || cols.client_col >= row.len() || cols.tx_col >= row.len() {
        return None;
    }
    let t = match parse_type(&row[cols.type_col]) {
        Some(t) => t,
        None => {
            return None;
        },
    };
    let cl = match parse_uint(&row[cols.client_col], 65535) {
        Some(cl) => cl,
        None => {
            return None;
        },
    };
    let x = match parse_uint(&row[cols.tx_col], 4294967295) {
        Some(x) => x,
        None => {
            return None;
        },
    };
    let base = PaymentRecord {
        transaction_type: t,
        client: ClientId { value: cl as u16 },
        tx: TransactionId { value: x as u32 },
        amount: None,
    };
    match cols.amount_col {
        Some(a) => if a < row.len() && row[a].len() > 0 {
            match parse_amount(&row[a]) {
                Some(amount) => Some(PaymentRecord { amount: Some(amount), ..base }),
                None => None,
            }
        } else {
            Some(base)
        },
        None => Some(base),
    }
}

} // verus!
