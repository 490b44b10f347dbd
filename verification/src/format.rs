//! Text renderings derived from the aggregates: CSV field escaping and
//! line building for the mirror file, and the compact summaries the
//! menu-bar widget shows.

use crate::api::StatsRow;
use crate::text::{contains_char, dec_of, push_char, u64_to_string};
use vstd::prelude::*;

verus! {

/// Whether a CSV field must be quoted: it holds a comma, a quote, or a
/// newline.
pub open spec fn csv_needs_quoting(s: Seq<char>) -> bool {
    s.contains(',') || s.contains('"') || s.contains('\n')
}

/// A field body with every quote doubled.
pub open spec fn csv_doubled(s: Seq<char>) -> Seq<char>
    decreases s.len(),
{
    if s.len() == 0 {
        s
    } else if s.last() == '"' {
        csv_doubled(s.drop_last()).push('"').push('"')
    } else {
        csv_doubled(s.drop_last()).push(s.last())
    }
}

/// A CSV field as written to the mirror: quoted with inner quotes
/// doubled when it needs quoting, verbatim otherwise.
pub open spec fn csv_escaped(s: Seq<char>) -> Seq<char> {
    if csv_needs_quoting(s) {
        seq!['"'] + csv_doubled(s) + seq!['"']
    } else {
        s
    }
}

/// Escapes one CSV field.
pub fn escape_csv(value: &str) -> (r: String)
    ensures
        r@ == csv_escaped(value@),
{
    let needs = contains_char(value, ',') || contains_char(value, '"') || contains_char(
        value,
        '\n',
    );
    if !needs {
        return String::from_str(value);
    }
    let len: usize = value.unicode_len();
    let mut out = String::new();
    push_char(&mut out, '"');
    let mut i: usize = 0;
    while i < len
        invariant
            i <= len,
            len == value@.len(),
            out@ == seq!['"'] + csv_doubled(value@.subrange(0, i as int)),
        decreases len - i,
    {
        let c = value.get_char(i);
        push_char(&mut out, c);
        if c == '"' {
            push_char(&mut out, '"');
        }
        proof {
            assert(value@.subrange(0, i + 1).drop_last() =~= value@.subrange(0, i as int));
            assert(value@.subrange(0, i + 1).last() == value@[i as int]);
            assert(out@ =~= seq!['"'] + csv_doubled(value@.subrange(0, i + 1)));
        }
        i = i + 1;
    }
    push_char(&mut out, '"');
    proof {
        assert(value@.subrange(0, len as int) =~= value@);
        assert(out@ =~= csv_escaped(value@));
    }
    out
}

/// One mirror line for a bucket row: the three escaped text fields and
/// the three counters, comma separated.
pub open spec fn csv_line_of(r: crate::api::StatsRowV) -> Seq<char> {
    csv_escaped(r.date) + seq![','] + csv_escaped(r.app_name) + seq![','] + csv_escaped(
        r.window_title,
    ) + seq![','] + dec_of(r.active_typing_ms as nat) + seq![','] + dec_of(r.key_count as nat)
        + seq![','] + dec_of(r.session_count as nat)
}

/// Renders one mirror line.
pub fn csv_line(row: &StatsRow) -> (r: String)
    ensures
        r@ == csv_line_of(row@),
{
    let mut out = escape_csv(row.date.as_str());
    push_char(&mut out, ',');
    let part = escape_csv(row.app_name.as_str());
    out.append(part.as_str());
    push_char(&mut out, ',');
    let part = escape_csv(row.window_title.as_str());
    out.append(part.as_str());
    push_char(&mut out, ',');
    let part = u64_to_string(row.active_typing_ms);
    out.append(part.as_str());
    push_char(&mut out, ',');
    let part = u64_to_string(row.key_count);
    out.append(part.as_str());
    push_char(&mut out, ',');
    let part = u64_to_string(row.session_count);
    out.append(part.as_str());
    proof {
        assert(out@ =~= csv_line_of(row@));
    }
    out
}

/// The header line of the mirror file.
pub fn csv_header() -> (r: &'static str)
    ensures
        r@ == "date,app_name,window_title,active_typing_ms,key_count,session_count"@,
{
    "date,app_name,window_title,active_typing_ms,key_count,session_count"
}

/// Accumulated time as whole hours and minutes: `<h>h <m>m`.
pub open spec fn hm_of(ms: u64) -> Seq<char> {
    dec_of((ms as nat / 60000) / 60) + "h "@ + dec_of((ms as nat / 60000) % 60) + "m"@
}

pub fn format_hm(ms: u64) -> (r: String)
    ensures
        r@ == hm_of(ms),
{
    let total_minutes: u64 = ms / 1000 / 60;
    let hours: u64 = total_minutes / 60;
    let minutes: u64 = total_minutes % 60;
    let mut out = u64_to_string(hours);
    out.append("h ");
    let part = u64_to_string(minutes);
    out.append(part.as_str());
    out.append("m");
    proof {
        assert(ms as nat / 60000 == ms / 1000 / 60) by (nonlinear_arith);
        assert(out@ =~= hm_of(ms));
    }
    out
}

/// A count scaled to tenths of a unit, rounded half away from zero.
pub open spec fn tenths_of(value: u64, unit: u64) -> u64
    recommends
        unit >= 10,
{
    (((value * 10 + unit / 2) / (unit as int)) as u64)
}

/// A scaled count with its suffix: the integer part alone when the
/// tenths are zero, one decimal place otherwise.
pub open spec fn scaled_label(value: u64, unit: u64, suffix: Seq<char>) -> Seq<char> {
    let t = tenths_of(value, unit);
    if t % 10 == 0 {
        dec_of((t / 10) as nat) + suffix
    } else {
        dec_of((t / 10) as nat) + seq!['.'] + dec_of((t % 10) as nat) + suffix
    }
}

/// A key count compacted for the menu bar: below a thousand verbatim,
/// then thousands, millions and billions to one decimal place.
pub open spec fn compact_number_of(value: u64) -> Seq<char> {
    if value < 1000 {
        dec_of(value as nat)
    } else if value < 1000000 {
        scaled_label(value, 1000, "k"@)
    } else if value < 1000000000 {
        scaled_label(value, 1000000, "m"@)
    } else {
        scaled_label(value, 1000000000, "b"@)
    }
}

pub fn format_compact_number(value: u64) -> (r: String)
    ensures
        r@ == compact_number_of(value),
{
    if value < 1000 {
        return u64_to_string(value);
    }
    if value < 1000000 {
        return scaled(value, 1000, "k");
    }
    if value < 1000000000 {
        return scaled(value, 1000000, "m");
    }
    scaled(value, 1000000000, "b")
}

fn scaled(value: u64, unit: u64, suffix: &str) -> (r: String)
    requires
        10 <= unit,
    ensures
        r@ == scaled_label(value, unit, suffix@),
{
    let t: u64 = compute_tenths(value, unit);
    let mut out = u64_to_string(t / 10);
    if t % 10 != 0 {
        push_char(&mut out, '.');
        let d = u64_to_string(t % 10);
        out.append(d.as_str());
    }
    out.append(suffix);
    proof {
        assert(out@ =~= scaled_label(value, unit, suffix@));
    }
    out
}

fn compute_tenths(value: u64, unit: u64) -> (r: u64)
    requires
        10 <= unit,
    ensures
        r == tenths_of(value, unit),
{
    let wide: u128 = (value as u128) * 10 + ((unit / 2) as u128);
    let t: u128 = wide / (unit as u128);
    proof {
        assert(wide == value * 10 + unit / 2);
        assert((value * 10 + unit / 2) / (unit as int) <= u64::MAX) by (nonlinear_arith)
            requires
                10 <= unit,
                value <= u64::MAX,
        {}
    }
    t as u64
}

} // verus!
