//! The compact input-event codec: one event is the string `dt,t,k,m`, where
//! `dt` is the event's offset in milliseconds from its chunk start, `t` is
//! `d` for key-down or `u` for key-up, `k` is the shortcut key symbol, and
//! `m` is the modifier bitmask.

use crate::modifier::ModifierSnapshot;
use crate::text::{
    all_digits, dec_of, dec_val, lemma_dec_of_val, parse_i64, parse_u8, push_char, signed_body,
    signed_val, u64_to_string, valid_i64_literal,
};
use vstd::prelude::*;

verus! {

/// The rendering of one compact event with offset `dt >= 0`.
pub open spec fn compact_of(dt: int, t: char, key: Seq<char>, mask: u8) -> Seq<char> {
    dec_of(dt as nat) + seq![','] + seq![t] + seq![','] + key + seq![','] + dec_of(mask as nat)
}

/// Renders one compact event string.
pub fn render_compact_event(dt: i64, event_type: char, key: &str, mask: u8) -> (r: String)
    requires
        dt >= 0,
    ensures
        r@ == compact_of(dt as int, event_type, key@, mask),
{
    let mut s = u64_to_string(dt as u64);
    push_char(&mut s, ',');
    push_char(&mut s, event_type);
    push_char(&mut s, ',');
    s.append(key);
    push_char(&mut s, ',');
    let m = u64_to_string(mask as u64);
    s.append(m.as_str());
    proof {
        assert(s@ =~= compact_of(dt as int, event_type, key@, mask));
    }
    s
}

/// Index of the first comma at or after `from`, or `-1`.
pub open spec fn find_comma(s: Seq<char>, from: int) -> int
    recommends
        0 <= from <= s.len(),
    decreases s.len() - from,
{
    if from < 0 || from >= s.len() {
        -1
    } else if s[from] == ',' {
        from
    } else {
        find_comma(s, from + 1)
    }
}

proof fn lemma_find_comma_props(s: Seq<char>, from: int)
    requires
        0 <= from <= s.len(),
    ensures
        find_comma(s, from) == -1 ==> forall|j: int| from <= j < s.len() ==> s[j] != ',',
        find_comma(s, from) >= 0 ==> from <= find_comma(s, from) < s.len() && s[find_comma(s, from)]
            == ',' && forall|j: int| from <= j < find_comma(s, from) ==> s[j] != ',',
    decreases s.len() - from,
{
    if from < s.len() && s[from] != ',' {
        lemma_find_comma_props(s, from + 1);
    }
}

proof fn lemma_find_comma_at(s: Seq<char>, from: int, k: int)
    requires
        0 <= from <= k < s.len(),
        forall|j: int| from <= j < k ==> s[j] != ',',
        s[k] == ',',
    ensures
        find_comma(s, from) == k,
    decreases k - from,
{
    if from < k {
        lemma_find_comma_at(s, from + 1, k);
    }
}

/// What a compact event string decodes to, if well-formed: the offset, the
/// event type character, the key symbol, and the modifier bitmask.
pub open spec fn parse_compact_spec(s: Seq<char>) -> Option<(i64, char, Seq<char>, u8)> {
    let c1 = find_comma(s, 0);
    if c1 < 0 {
        None
    } else {
        let dt_seg = s.subrange(0, c1);
        let c2 = find_comma(s, c1 + 1);
        if !valid_i64_literal(dt_seg) || c2 < 0 {
            None
        } else {
            let t_seg = s.subrange(c1 + 1, c2);
            let c3 = find_comma(s, c2 + 1);
            if t_seg.len() == 0 || c3 < 0 {
                None
            } else {
                let key_seg = s.subrange(c2 + 1, c3);
                let m_seg = s.subrange(c3 + 1, s.len() as int);
                if m_seg.len() > 0 && all_digits(m_seg) && dec_val(m_seg) <= u8::MAX {
                    Some((signed_val(dt_seg) as i64, t_seg[0], key_seg, dec_val(m_seg) as u8))
                } else {
                    None
                }
            }
        }
    }
}

fn find_comma_exec(s: &str, from: usize) -> (r: Option<usize>)
    requires
        from <= s@.len(),
    ensures
        r is Some <==> find_comma(s@, from as int) >= 0,
        r is Some ==> r.unwrap() == find_comma(s@, from as int) && from <= r.unwrap() < s@.len(),
{
    let len: usize = s.unicode_len();
    let mut i: usize = from;
    while i < len
        invariant
            from <= i <= len,
            len == s@.len(),
            forall|j: int| from <= j < i ==> s@[j] != ',',
        decreases len - i,
    {
        if s.get_char(i) == ',' {
            proof {
                lemma_find_comma_at(s@, from as int, i as int);
            }
            return Some(i);
        }
        i = i + 1;
    }
    proof {
        lemma_find_comma_props(s@, from as int);
        if find_comma(s@, from as int) >= 0 {
            assert(s@[find_comma(s@, from as int)] == ',');
        }
    }
    None
}

/// Parses a compact event string. Returns `None` exactly when the string
/// does not have four comma-separated fields with a decimal offset, a
/// non-empty type field, and a decimal bitmask up to 255. The modifier
/// snapshot is the decoding of the bitmask.
pub fn parse_compact_event(raw: &str) -> (r: Option<(i64, char, String, ModifierSnapshot)>)
    ensures
        r is Some <==> parse_compact_spec(raw@) is Some,
        r is Some ==> {
            let (dt, t, key, mask) = parse_compact_spec(raw@).unwrap();
            r.unwrap().0 == dt && r.unwrap().1 == t && r.unwrap().2@ == key && r.unwrap().3
                == ModifierSnapshot::spec_from_bitmask(mask)
        },
{
    let len: usize = raw.unicode_len();
    let c1 = match find_comma_exec(raw, 0) {
        Some(i) => i,
        None => {
            return None;
        },
    };
    let dt_seg = raw.substring_char(0, c1);
    let dt = match parse_i64(dt_seg) {
        Some(v) => v,
        None => {
            proof {
                assert(dt_seg@ =~= raw@.subrange(0, c1 as int));
            }
            return None;
        },
    };
    proof {
        assert(dt_seg@ =~= raw@.subrange(0, c1 as int));
        lemma_find_comma_props(raw@, 0);
    }
    let c2 = match find_comma_exec(raw, c1 + 1) {
        Some(i) => i,
        None => {
            return None;
        },
    };
    proof {
        lemma_find_comma_props(raw@, c1 + 1);
    }
    if c2 == c1 + 1 {
        proof {
            assert(raw@.subrange(c1 + 1, c2 as int).len() == 0);
        }
        return None;
    }
    let t = raw.get_char(c1 + 1);
    proof {
        assert(raw@.subrange(c1 + 1, c2 as int)[0] == raw@[c1 + 1]);
    }
    let c3 = match find_comma_exec(raw, c2 + 1) {
        Some(i) => i,
        None => {
            return None;
        },
    };
    proof {
        lemma_find_comma_props(raw@, c2 + 1);
    }
    let key = raw.substring_char(c2 + 1, c3);
    let m_seg = raw.substring_char(c3 + 1, len);
    let mask = match parse_u8(m_seg) {
        Some(v) => v,
        None => {
            proof {
                assert(m_seg@ =~= raw@.subrange(c3 + 1, raw@.len() as int));
            }
            return None;
        },
    };
    proof {
        assert(m_seg@ =~= raw@.subrange(c3 + 1, raw@.len() as int));
        assert(key@ =~= raw@.subrange(c2 + 1, c3 as int));
    }
    Some((dt, t, String::from_str(key), ModifierSnapshot::from_bitmask(mask)))
}

/// Decoding is a left inverse of encoding: any compact event rendered from
/// an offset, a type character other than a comma, a key symbol without a
/// comma, and a bitmask parses back to exactly those fields.
pub proof fn lemma_compact_round_trip(dt: int, t: char, key: Seq<char>, mask: u8)
    requires
        0 <= dt <= i64::MAX,
        t != ',',
        !key.contains(','),
    ensures
        parse_compact_spec(compact_of(dt, t, key, mask)) == Some(
            (dt as i64, t, key, (dec_val(dec_of(mask as nat)) as u8)),
        ),
        parse_compact_spec(compact_of(dt, t, key, mask)) == Some((dt as i64, t, key, mask)),
{
    let s = compact_of(dt, t, key, mask);
    let d = dec_of(dt as nat);
    let m = dec_of(mask as nat);
    lemma_dec_of_val(dt as nat);
    lemma_dec_of_val(mask as nat);
    let n1 = d.len() as int;
    let n2 = n1 + 2;
    let n3 = n2 + key.len() + 1;
    assert(s.len() == d.len() + key.len() + m.len() + 4);
    assert forall|j: int| 0 <= j < n1 implies s[j] != ',' by {
        assert(s[j] == d[j]);
        assert(crate::text::is_digit_char(d[j]));
    }
    assert(s[n1] == ',');
    lemma_find_comma_at(s, 0, n1);
    assert(s.subrange(0, n1) =~= d);
    assert(s[n1 + 1] == t);
    assert(s[n2] == ',');
    lemma_find_comma_at(s, n1 + 1, n2);
    assert forall|j: int| n2 + 1 <= j < n3 implies s[j] != ',' by {
        assert(s[j] == key[j - (n2 + 1)]);
        assert(!key.contains(s[j]) ==> s[j] != s[j]) by {
            if s[j] == ',' {
                assert(key.contains(',')) by {
                    assert(key[j - (n2 + 1)] == ',');
                }
            }
        }
    }
    assert(s[n3] == ',');
    lemma_find_comma_at(s, n2 + 1, n3);
    assert(s.subrange(n1 + 1, n2) =~= seq![t]);
    assert(s.subrange(n2 + 1, n3) =~= key);
    assert(s.subrange(n3 + 1, s.len() as int) =~= m);
    assert(valid_i64_literal(d)) by {
        assert(crate::text::is_digit_char(d[0]));
        assert(d[0] != '-' && d[0] != '+') by {
            assert(48 <= d[0] as u32 <= 57);
            vstd::utf8::char_u32_cast(d[0], d[0] as u32);
            vstd::utf8::char_u32_cast('-', '-' as u32);
            vstd::utf8::char_u32_cast('+', '+' as u32);
        }
        assert(signed_body(d) == d);
    }
    assert(signed_val(d) == dt) by {
        assert(signed_body(d) == d);
        assert(!crate::text::is_negative_literal(d)) by {
            assert(crate::text::is_digit_char(d[0]));
            assert(d[0] != '-') by {
                assert(48 <= d[0] as u32 <= 57);
                vstd::utf8::char_u32_cast(d[0], d[0] as u32);
                vstd::utf8::char_u32_cast('-', '-' as u32);
            }
        }
    }
}

} // verus!
