//! The short cost text for the status indicator.

use vstd::prelude::*;

use crate::numbers::{dec_chars, push_decimal};

verus! {

/// Two digits, zero-padded.
pub open spec fn pad2_chars(n: int) -> Seq<char> {
    if n < 10 {
        "0"@ + dec_chars(n)
    } else {
        dec_chars(n)
    }
}

/// Three digits, zero-padded.
pub open spec fn pad3_chars(n: int) -> Seq<char> {
    if n < 10 {
        "00"@ + dec_chars(n)
    } else if n < 100 {
        "0"@ + dec_chars(n)
    } else {
        dec_chars(n)
    }
}

/// The short cost text: a dollar sign, then the cost rounded half-up to
/// two decimal places from one dollar on, and to three below.
pub open spec fn cost_short_chars(micros: u64) -> Seq<char> {
    if micros >= 1_000_000 {
        let cents = (micros + 5_000) / 10_000;
        "$"@ + dec_chars(cents / 100) + "."@ + pad2_chars(cents % 100)
    } else {
        let mills = (micros + 500) / 1_000;
        "$"@ + dec_chars(mills / 1_000) + "."@ + pad3_chars(mills % 1_000)
    }
}

/// Writes a micro-dollar cost for the status indicator, as
/// `cost_short_chars` describes.
pub fn format_cost_short(cost_micro_usd: u64) -> (r: String)
    ensures
        r@ == cost_short_chars(cost_micro_usd),
{
    let mut out = String::from_str("$");
    if cost_micro_usd >= 1_000_000 {
        let cents = (((cost_micro_usd as u128) + 5_000) / 10_000) as u64;
        push_decimal(&mut out, cents / 100);
        out.append(".");
        let frac = cents % 100;
        if frac < 10 {
            out.append("0");
        }
        push_decimal(&mut out, frac);
        proof {
            assert(out@ =~= cost_short_chars(cost_micro_usd));
        }
    } else {
        let mills = (cost_micro_usd + 500) / 1_000;
        push_decimal(&mut out, mills / 1_000);
        out.append(".");
        let frac = mills % 1_000;
        if frac < 10 {
            out.append("00");
        } else if frac < 100 {
            out.append("0");
        }
        push_decimal(&mut out, frac);
        proof {
            assert(out@ =~= cost_short_chars(cost_micro_usd));
        }
    }
    out
}

/// The status text for the tray: a green or red indicator followed by the
/// short cost.
pub open spec fn tray_title_chars(micros: u64, connected: bool) -> Seq<char> {
    (if connected {
        "\u{1f7e2}"@
    } else {
        "\u{1f534}"@
    }) + " "@ + cost_short_chars(micros)
}

/// Writes the tray status text, as `tray_title_chars` describes.
pub fn tray_title(cost_micro_usd: u64, is_connected: bool) -> (r: String)
    ensures
        r@ == tray_title_chars(cost_micro_usd, is_connected),
{
    let mut out = if is_connected {
        String::from_str("\u{1f7e2}")
    } else {
        String::from_str("\u{1f534}")
    };
    out.append(" ");
    let cost = format_cost_short(cost_micro_usd);
    out.append(cost.as_str());
    proof {
        assert(out@ =~= tray_title_chars(cost_micro_usd, is_connected));
    }
    out
}

} // verus!
