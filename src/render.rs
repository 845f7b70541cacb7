//! The textual summary: one comma-separated row per client after a header.
use vstd::prelude::*;

use crate::data_models::{Amount, ClientSummary, ClientTransactions, AMOUNT_SCALE};
use crate::ledger::Ledger;

verus! {

pub open spec fn digit(d: int) -> u8 {
    (48 + d) as u8
}

/// Decimal digits of `n`, without leading zeros.
pub open spec fn nat_text(n: nat) -> Seq<u8>
    decreases n,
{
    if n < 10 {
        seq![digit(n as int)]
    } else {
        nat_text(n / 10).push(digit((n % 10) as int))
    }
}

/// The last `w` decimal digits of `n`, with leading zeros.
pub open spec fn fixed_text(n: nat, w: nat) -> Seq<u8>
    decreases w,
{
    if w == 0 {
        Seq::empty()
    } else {
        fixed_text(n / 10, (w - 1) as nat).push(digit((n % 10) as int))
    }
}

/// The `w`-digit fraction `n`, trailing zeros dropped.
pub open spec fn frac_text(n: nat, w: nat) -> Seq<u8>
    decreases w,
{
    if w > 0 && n % 10 == 0 {
        frac_text(n / 10, (w - 1) as nat)
    } else {
        fixed_text(n, w)
    }
}

pub open spec fn abs(v: int) -> nat {
    if v < 0 { (-v) as nat } else { v as nat }
}

/// An amount in ten-thousandths as a decimal number: a minus sign when
/// negative, the whole part, and the fraction without trailing zeros, if any.
/// Zero is written `0`.
pub open spec fn amount_text(v: int) -> Seq<u8> {
    let m = abs(v);
    let f = m % (AMOUNT_SCALE as nat);
    let sign: Seq<u8> = if v < 0 { seq![45u8] } else { Seq::empty() };
    let frac: Seq<u8> = if f == 0 { Seq::empty() } else { seq![46u8] + frac_text(f, 4) };
    sign + nat_text(m / (AMOUNT_SCALE as nat)) + frac
}

pub open spec fn bool_text(b: bool) -> Seq<u8> {
    if b { seq![116u8, 114, 117, 101] } else { seq![102u8, 97, 108, 115, 101] }
}

/// `client, available, held, total, locked` and a line break.
pub open spec fn header_text() -> Seq<u8> {
    seq![
        99u8, 108, 105, 101, 110, 116, 44, 32, 97, 118, 97, 105, 108, 97, 98, 108, 101, 44, 32,
        104, 101, 108, 100, 44, 32, 116, 111, 116, 97, 108, 44, 32, 108, 111, 99, 107, 101, 100, 10,
    ]
}

/// One summary row: client, available, held, total, locked, and a line break.
pub open spec fn summary_row(client: u16, l: Ledger) -> Seq<u8> {
    nat_text(client as nat) + seq![44u8] + amount_text(l.available) + seq![44u8] + amount_text(l.held)
        + seq![44u8] + amount_text(l.total()) + seq![44u8] + bool_text(l.locked) + seq![10u8]
}

/// The rows of all clients, in map order.
pub open spec fn rows_text(m: Seq<ClientTransactions>) -> Seq<u8>
    decreases m.len(),
{
    if m.len() == 0 {
        Seq::empty()
    } else {
        rows_text(m.drop_last()) + summary_row(m.last().client.value, m.last().client_summary@)
    }
}

fn push_bytes(out: &mut Vec<u8>, bytes: &[u8])
    ensures
        final(out)@ == old(out)@ + bytes@,
{
    let mut i: usize = 0;
    while i < bytes.len()
        invariant
            0 <= i <= bytes@.len(),
            out@ == old(out)@ + bytes@.take(i as int),
        decreases bytes@.len() - i,
    {
        out.push(bytes[i]);
        i = i + 1;
        proof {
            assert(out@ =~= old(out)@ + bytes@.take(i as int));
        }
    }
    proof {
        assert(bytes@.take(i as int) =~= bytes@);
    }
}

fn write_nat(out: &mut Vec<u8>, n: u64)
    ensures
        final(out)@ == old(out)@ + nat_text(n as nat),
    decreases n,
{
    if n >= 10 {
        write_nat(out, n / 10);
    }
    out.push((48 + n % 10) as u8);
    proof {
        if n >= 10 {
            assert(out@ =~= old(out)@ + nat_text(n as nat));
        } else {
            assert(out@ =~= old(out)@ + nat_text(n as nat));
        }
    }
}

fn write_fixed(out: &mut Vec<u8>, n: u64, w: u64)
    ensures
        final(out)@ == old(out)@ + fixed_text(n as nat, w as nat),
    decreases w,
{
    if w > 0 {
        write_fixed(out, n / 10, w - 1);
        out.push((48 + n % 10) as u8);
        proof {
            assert(out@ =~= old(out)@ + fixed_text(n as nat, w as nat));
        }
    } else {
        proof {
            assert(out@ =~= old(out)@ + fixed_text(n as nat, w as nat));
        }
    }
}

fn write_frac(out: &mut Vec<u8>, n: u64, w: u64)
    ensures
        final(out)@ == old(out)@ + frac_text(n as nat, w as nat),
    decreases w,
{
    if w > 0 && n % 10 == 0 {
        write_frac(out, n / 10, w - 1);
    } else {
        write_fixed(out, n, w);
    }
}

/// Appends the decimal text of an amount.
pub fn write_amount(out: &mut Vec<u8>, a: Amount)
    ensures
        final(out)@ == old(out)@ + amount_text(a.value as int),
{
    let v = a.value;
    let m: u64 = if v < 0 { (-(v as i128)) as u64 } else { v as u64 };
    assert(m == abs(v as int));
    if v < 0 {
        out.push(45);
    }
    write_nat(out, m / 10000);
    let f = m % 10000;
    if f != 0 {
        out.push(46);
        write_frac(out, f, 4);
    }
    proof {
        assert(out@ =~= old(out)@ + amount_text(a.value as int));
    }
}

fn write_bool(out: &mut Vec<u8>, b: bool)
    ensures
        final(out)@ == old(out)@ + bool_text(b),
{
    if b {
        push_bytes(out, &[116u8, 114, 117, 101]);
    } else {
        push_bytes(out, &[102u8, 97, 108, 115, 101]);
    }
    proof {
        assert(out@ =~= old(out)@ + bool_text(b));
    }
}

/// Appends the summary row of one client.
pub fn write_row(out: &mut Vec<u8>, client: u16, summary: &ClientSummary)
    requires
        summary.wf(),
    ensures
        final(out)@ == old(out)@ + summary_row(client, summary@),
{
    write_nat(out, client as u64);
    out.push(44);
    write_amount(out, summary.available);
    out.push(44);
    write_amount(out, summary.held);
    out.push(44);
    let total = summary.total();
    write_amount(out, total);
    out.push(44);
    write_bool(out, summary.locked);
    out.push(10);
    proof {
        assert(out@ =~= old(out)@ + summary_row(client, summary@));
    }
}

/// Renders the summary of every client: the header, then one row per client.
pub fn render_output(clients: &Vec<ClientTransactions>) -> (r: Vec<u8>)
    requires
        forall|k: int| 0 <= k < clients@.len() ==> clients@[k].client_summary.wf(),
    ensures
        r@ == header_text() + rows_text(clients@),
{
    let mut out: Vec<u8> = Vec::new();
    push_bytes(&mut out, &[
        99u8, 108, 105, 101, 110, 116, 44, 32, 97, 118, 97, 105, 108, 97, 98, 108, 101, 44, 32,
        104, 101, 108, 100, 44, 32, 116, 111, 116, 97, 108, 44, 32, 108, 111, 99, 107, 101, 100, 10,
    ]);
    proof {
        assert(out@ =~= header_text() + rows_text(clients@.take(0)));
    }
    let mut i: usize = 0;
    while i < clients.len()
        invariant
            0 <= i <= clients@.len(),
            forall|k: int| 0 <= k < clients@.len() ==> clients@[k].client_summary.wf(),
            out@ == header_text() + rows_text(clients@.take(i as int)),
        decreases clients@.len() - i,
    {
        let ghost before = out@;
        let c = &clients[i];
        write_row(&mut out, c.client.value, &c.client_summary);
        proof {
            let s = clients@.take(i as int + 1);
            assert(s.drop_last() =~= clients@.take(i as int));
            assert(out@ =~= header_text() + rows_text(s));
        }
        i = i + 1;
    }
    proof {
        assert(clients@.take(i as int) =~= clients@);
    }
    out
}

} // verus!
