//! Renminbi amounts in financial capital numerals (财会大写).
//!
//! Digits 零壹贰叁肆伍陆柒捌玖; units 元角分; the integer part in groups of four digits
//! (拾佰仟 within a group, 万 and 亿 between groups). A run of zeros inside the number
//! is written as one 零; 整 ends an amount without 分. Amounts are below one trillion
//! (万亿) and have at most two decimals.

use vstd::prelude::*;

use crate::decimal::{all_digits, digit_of, digit_value, digits_value, is_digit};
use crate::plugin::{err, info_of, outcome, single_tool, tool_input, Outcome, PluginError, PluginInfo, ToolSchema};
use crate::text::{chars_of, extend_chars, split_once, string_of, trim, trim_chars};

verus! {

/// The amount-in-words plugin.
pub struct Rmb;

/// The capital numeral of a digit.
pub open spec fn cn_digit(d: nat) -> char {
    seq!['零', '壹', '贰', '叁', '肆', '伍', '陆', '柒', '捌', '玖'][d as int]
}

/// The unit of digit position `p` inside a group of four (`""`, 拾, 佰, 仟).
pub open spec fn small_unit(p: nat) -> Seq<char> {
    if p == 1 {
        seq!['拾']
    } else if p == 2 {
        seq!['佰']
    } else if p == 3 {
        seq!['仟']
    } else {
        Seq::empty()
    }
}

/// `10^p` for `p <= 3`.
pub open spec fn pow10(p: nat) -> nat {
    if p == 0 {
        1
    } else if p == 1 {
        10
    } else if p == 2 {
        100
    } else {
        1000
    }
}

/// Position of the leading digit of `g` (`0..=3` for `g < 10000`).
pub open spec fn lead_pos(g: nat) -> nat {
    if g >= 1000 {
        3
    } else if g >= 100 {
        2
    } else if g >= 10 {
        1
    } else {
        0
    }
}

/// A nonzero group `1..=9999` in numerals: the leading digit with its unit, then the
/// rest of the group, with one 零 where zeros separate the two.
pub open spec fn group_cn(g: nat) -> Seq<char>
    decreases g,
{
    if g == 0 || g >= 10000 {
        Seq::empty()
    } else {
        let p = lead_pos(g);
        let rest = g % pow10(p);
        let head = seq![cn_digit(g / pow10(p))] + small_unit(p);
        if rest == 0 {
            head
        } else if p >= 1 && rest < pow10((p - 1) as nat) {
            head + seq!['零'] + group_cn(rest)
        } else {
            head + group_cn(rest)
        }
    }
}

/// `0..=9999` in numerals (`零` for zero).
pub open spec fn group_text(g: nat) -> Seq<char> {
    if g == 0 {
        seq!['零']
    } else {
        group_cn(g)
    }
}

#[verifier::opaque]
/// What the digit loop still appends when the digits at positions `pos..=0` form `r`,
/// given whether output was already written (`started`) and whether a zero is waiting
/// to be written (`pending`).
pub open spec fn group_tail(r: nat, pos: int, started: bool, pending: bool) -> Seq<char> {
    if r == 0 {
        Seq::empty()
    } else if started && (pending || (lead_pos(r) as int) < pos) {
        seq!['零'] + group_cn(r)
    } else {
        group_cn(r)
    }
}

/// `10^k` for `k <= 4`.
pub open spec fn pow10x(k: int) -> nat {
    if k <= 0 {
        1
    } else if k == 1 {
        10
    } else if k == 2 {
        100
    } else if k == 3 {
        1000
    } else {
        10000
    }
}

/// One step of the digit loop at position `pos`: what it appends, followed by what is
/// left for the lower positions, is what was left before the step.
proof fn lemma_group_step(g: nat, pos: int, started: bool, pending: bool)
    requires
        g < 10000,
        0 <= pos <= 3,
        pending ==> started,
    ensures
        ({
            let r = g % pow10x(pos + 1);
            let d = (g / pow10x(pos)) % 10;
            let r2 = g % pow10x(pos);
            if d == 0 {
                group_tail(r, pos, started, pending)
                    == group_tail(r2, pos - 1, started, pending || started)
            } else {
                group_tail(r, pos, started, pending)
                    == (if pending { seq!['零'] } else { Seq::<char>::empty() })
                        + seq![cn_digit(d)] + small_unit(pos as nat)
                        + group_tail(r2, pos - 1, true, false)
            }
        }),
{
    reveal(group_tail);
    let r = g % pow10x(pos + 1);
    let d = (g / pow10x(pos)) % 10;
    let r2 = g % pow10x(pos);
    if pos == 0 {
        assert(r == g % 10 && r2 == 0 && d == g % 10);
    } else if pos == 1 {
        assert(r == g % 100 && r2 == g % 10 && d == (g / 10) % 10);
        assert(r == d * 10 + r2);
    } else if pos == 2 {
        assert(r == g % 1000 && r2 == g % 100 && d == (g / 100) % 10);
        assert(r == d * 100 + r2);
    } else {
        assert(r == g && r2 == g % 1000 && d == g / 1000);
        assert(r == d * 1000 + r2);
    }
    if d != 0 {
        assert(lead_pos(r) == pos);
        assert(r / pow10(pos as nat) == d);
        assert(r % pow10(pos as nat) == r2);
        if r2 != 0 {
            assert((lead_pos(r2) as int) < pos - 1 <==> (pos >= 1 && r2 < pow10((pos - 1) as nat)));
        }
        assert(group_cn(r) == seq![cn_digit(d)] + small_unit(pos as nat) + group_tail(r2, pos - 1, true, false));
        if pending {
            assert(group_tail(r, pos, started, pending) == seq!['零'] + group_cn(r));
            assert(seq!['零'] + (seq![cn_digit(d)] + small_unit(pos as nat) + group_tail(r2, pos - 1, true, false))
                =~= seq!['零'] + seq![cn_digit(d)] + small_unit(pos as nat) + group_tail(r2, pos - 1, true, false));
        } else {
            assert(Seq::<char>::empty() + seq![cn_digit(d)] =~= seq![cn_digit(d)]);
        }
    } else {
        assert(r == r2);
        if r != 0 {
            assert((lead_pos(r) as int) < pos);
        }
    }
}

/// The capital numeral of a digit.
fn cn_digit_char(d: u32) -> (c: char)
    requires
        d <= 9,
    ensures
        c == cn_digit(d as nat),
{
    let digits: [char; 10] = ['零', '壹', '贰', '叁', '肆', '伍', '陆', '柒', '捌', '玖'];
    digits[d as usize]
}

/// `10^p` for `p <= 3`.
fn pow10_of(p: usize) -> (r: u32)
    requires
        p <= 3,
    ensures
        r == pow10x(p as int),
        r >= 1,
{
    if p == 0 {
        1
    } else if p == 1 {
        10
    } else if p == 2 {
        100
    } else {
        1000
    }
}

/// `0..=9999` in capital numerals, a zero inside written once as 零.
pub fn group_to_cn(g: u32) -> (s: String)
    requires
        g <= 9999,
    ensures
        s@ == group_text(g as nat),
{
    let v = group_chars(g);
    string_of(v.as_slice())
}

fn group_chars(g: u32) -> (s: Vec<char>)
    requires
        g <= 9999,
    ensures
        s@ == group_text(g as nat),
{
    let mut out: Vec<char> = Vec::new();
    let mut pending = false;
    let mut i: usize = 4;
    assert(g as nat % pow10x(4) == g);
    assert(out@ =~= Seq::<char>::empty());
    while i > 0
        invariant
            g <= 9999,
            i <= 4,
            pending ==> out@.len() > 0,
            out@ + group_tail(g as nat % pow10x(i as int), i - 1, out@.len() > 0, pending)
                == group_tail(g as nat, 3, false, false),
        decreases i,
    {
        let pos = i - 1;
        let d = (g / pow10_of(pos)) % 10;
        proof {
            lemma_group_step(g as nat, pos as int, out@.len() > 0, pending);
        }
        if d == 0 {
            if out.len() > 0 {
                pending = true;
            }
        } else {
            let ghost before = out@;
            let ghost was_pending = pending;
            if pending {
                out.push('零');
                pending = false;
            }
            out.push(cn_digit_char(d));
            if pos == 1 {
                out.push('拾');
            } else if pos == 2 {
                out.push('佰');
            } else if pos == 3 {
                out.push('仟');
            }
            proof {
                let z = if was_pending { seq!['零'] } else { Seq::<char>::empty() };
                assert(out@ =~= before + z + seq![cn_digit(d as nat)] + small_unit(pos as nat));
                assert(out@ + group_tail(g as nat % pow10x(pos as int), pos - 1, true, false)
                    =~= before + (z + seq![cn_digit(d as nat)] + small_unit(pos as nat)
                    + group_tail(g as nat % pow10x(pos as int), pos - 1, true, false)));
            }
        }
        i = pos;
    }
    proof {
        reveal(group_tail);
        if g > 0 {
            assert(group_cn(g as nat).len() > 0);
        }
    }
    if out.len() == 0 {
        out.push('零');
    }
    out
}

/// Characters `'零'` when `b`, none otherwise.
pub open spec fn zero_if(b: bool) -> Seq<char> {
    if b { seq!['零'] } else { Seq::empty() }
}

/// An integer below one trillion in capital numerals: 亿 group, 万 group, units group,
/// with one 零 wherever zeros separate a nonzero group from written output (a group
/// under 1000, or an empty 万 group between 亿 and the units).
pub open spec fn int_cn(n: nat) -> Seq<char> {
    if n == 0 {
        seq!['零']
    } else {
        let yi = n / 100_000_000;
        let wan = (n / 10_000) % 10_000;
        let ge = n % 10_000;
        let a = if yi > 0 { group_text(yi) + seq!['亿'] } else { Seq::empty() };
        let b = if wan > 0 {
            zero_if(yi > 0 && wan < 1000) + group_text(wan) + seq!['万']
        } else {
            Seq::empty()
        };
        let c = if ge > 0 {
            zero_if(units_zero(yi, wan, ge)) + group_text(ge)
        } else {
            Seq::empty()
        };
        a + b + c
    }
}

/// Whether 零 goes before a nonzero units group: when zeros separate it from written
/// output, that is when it is below 1000 after a 亿 or 万 group, or when an empty 万
/// group lies between it and the 亿 group.
pub open spec fn units_zero(yi: nat, wan: nat, ge: nat) -> bool {
    ((yi > 0 || wan > 0) && ge < 1000) || (yi > 0 && wan == 0)
}

/// 角 and 分 in words: 整 for none; 零 after 元 when only 分 is present; 整 after 角
/// when there is no 分.
pub open spec fn dec_cn(jiao: nat, fen: nat) -> Seq<char> {
    if jiao == 0 && fen == 0 {
        seq!['整']
    } else {
        (if jiao == 0 { seq!['零'] } else { seq![cn_digit(jiao), '角'] })
            + (if fen > 0 { seq![cn_digit(fen), '分'] } else { seq!['整'] })
    }
}

/// The integer and decimal parts of an amount: split at the first `.`; no `.` means
/// no decimals.
pub open spec fn amount_parts(a: Seq<char>) -> (Seq<char>, Seq<char>) {
    match split_once(a, "."@) {
        Some(parts) => parts,
        None => (a, Seq::empty()),
    }
}

/// Value of the `i`-th decimal digit, 0 when absent.
pub open spec fn dec_digit(d: Seq<char>, i: int) -> nat {
    if i < d.len() { digit_value(d[i]) } else { 0 }
}

/// What `rmb_to_upper` returns for `amount`.
pub open spec fn rmb_text(amount: Seq<char>) -> Outcome {
    let a = trim(amount);
    let (ip, dp) = amount_parts(a);
    if ip.len() == 0 || !all_digits(ip) {
        Err(("format"@, "金额格式错误：整数部分只能为数字"@))
    } else if !all_digits(dp) {
        Err(("format"@, "金额格式错误：小数部分只能为数字"@))
    } else if dp.len() > 2 {
        Err(("precision"@, "金额最多精确到分"@))
    } else if digits_value(ip) >= 1_000_000_000_000 {
        Err(("range"@, "金额超出支持范围（< 万亿）"@))
    } else {
        Ok(int_cn(digits_value(ip)) + seq!['元'] + dec_cn(dec_digit(dp, 0), dec_digit(dp, 1)))
    }
}

/// An integer below one trillion in capital numerals.
pub fn int_to_cn(n: u64) -> (s: String)
    requires
        n < 1_000_000_000_000,
    ensures
        s@ == int_cn(n as nat),
{
    let v = int_chars(n);
    string_of(v.as_slice())
}

fn int_chars(n: u64) -> (s: Vec<char>)
    requires
        n < 1_000_000_000_000,
    ensures
        s@ == int_cn(n as nat),
{
    let mut s: Vec<char> = Vec::new();
    if n == 0 {
        s.push('零');
        return s;
    }
    let yi = n / 100_000_000;
    let wan = (n / 10_000) % 10_000;
    let ge = n % 10_000;
    if yi > 0 {
        let g = group_chars(yi as u32);
        extend_chars(&mut s, g.as_slice());
        s.push('亿');
    }
    let ghost a = s@;
    if wan > 0 {
        if s.len() > 0 && wan < 1000 {
            s.push('零');
        }
        let g = group_chars(wan as u32);
        extend_chars(&mut s, g.as_slice());
        s.push('万');
    }
    let ghost ab = s@;
    proof {
        if yi > 0 {
            assert(a.len() > 0);
        } else {
            assert(a.len() == 0);
        }
        assert(ab =~= a + (if wan > 0 { zero_if(yi > 0 && wan < 1000) + group_text(wan as nat) + seq!['万'] } else { Seq::empty() }));
        assert((ab.len() > 0) == (yi > 0 || wan > 0));
    }
    if ge > 0 {
        if (s.len() > 0 && ge < 1000) || (yi > 0 && wan == 0) {
            s.push('零');
        }
        let g = group_chars(ge as u32);
        extend_chars(&mut s, g.as_slice());
    }
    proof {
        assert(s@ =~= ab + (if ge > 0 { zero_if(units_zero(yi as nat, wan as nat, ge as nat)) + group_text(ge as nat) } else { Seq::empty() }));
    }
    s
}

/// 角 and 分 of a two-digit decimal string in words.
pub fn dec_to_cn(dec: &str) -> (s: String)
    requires
        dec@.len() == 2,
        all_digits(dec@),
    ensures
        s@ == dec_cn(digit_value(dec@[0]), digit_value(dec@[1])),
{
    let d = chars_of(dec);
    let v = dec_chars(digit_of(d[0]), digit_of(d[1]));
    string_of(v.as_slice())
}

fn dec_chars(jiao: u8, fen: u8) -> (s: Vec<char>)
    requires
        jiao <= 9,
        fen <= 9,
    ensures
        s@ == dec_cn(jiao as nat, fen as nat),
{
    let mut s: Vec<char> = Vec::new();
    if jiao == 0 && fen == 0 {
        s.push('整');
    } else {
        if jiao == 0 {
            s.push('零');
        } else {
            s.push(cn_digit_char(jiao as u32));
            s.push('角');
        }
        if fen > 0 {
            s.push(cn_digit_char(fen as u32));
            s.push('分');
        } else {
            s.push('整');
        }
    }
    proof {
        assert(s@ =~= dec_cn(jiao as nat, fen as nat));
    }
    s
}

/// A written amount (like `12345.67`) in capital numerals; the integer part only digits,
/// at most two decimals (to the 分), below one trillion.
pub fn rmb_to_upper(amount: &str) -> (r: Result<String, PluginError>)
    ensures
        outcome(r) == rmb_text(amount@),
{
    let raw = chars_of(amount);
    let a = trim_chars(raw.as_slice());
    let dot = chars_of(".");
    let (ip, dp) = match crate::text::split_once_chars(a.as_slice(), dot.as_slice()) {
        Some((i, d)) => (i, d),
        None => (a, Vec::new()),
    };
    assert((ip@, dp@) == amount_parts(trim(amount@)));
    if ip.len() == 0 || !crate::decimal::all_digits_chars(ip.as_slice()) {
        return Err(err("format", "金额格式错误：整数部分只能为数字"));
    }
    if !crate::decimal::all_digits_chars(dp.as_slice()) {
        return Err(err("format", "金额格式错误：小数部分只能为数字"));
    }
    if dp.len() > 2 {
        return Err(err("precision", "金额最多精确到分"));
    }
    let v = crate::decimal::digits_value_capped(ip.as_slice(), 1_000_000_000_000);
    if v >= 1_000_000_000_000 {
        return Err(err("range", "金额超出支持范围（< 万亿）"));
    }
    let jiao: u8 = if dp.len() >= 1 { digit_of(dp[0]) } else { 0 };
    let fen: u8 = if dp.len() == 2 { digit_of(dp[1]) } else { 0 };
    let mut out = int_chars(v);
    out.push('元');
    let d = dec_chars(jiao, fen);
    extend_chars(&mut out, d.as_slice());
    assert(jiao as nat == dec_digit(dp@, 0));
    assert(fen as nat == dec_digit(dp@, 1));
    assert(v == digits_value(ip@));
    assert(out@ =~= int_cn(digits_value(ip@)) + seq!['元'] + dec_cn(dec_digit(dp@, 0), dec_digit(dp@, 1)));
    Ok(string_of(out.as_slice()))
}

/// No two 零 stand next to each other in `s`.
pub open spec fn no_double_zero(s: Seq<char>) -> bool {
    forall|i: int| 0 <= i < s.len() - 1 ==> !(#[trigger] s[i] == '零' && s[i + 1] == '零')
}

/// `s` is nonempty and neither begins nor ends with 零.
pub open spec fn zero_free_ends(s: Seq<char>) -> bool {
    s.len() > 0 && s[0] != '零' && s.last() != '零'
}

proof fn lemma_cn_digit_nonzero(d: nat)
    requires
        1 <= d <= 9,
    ensures
        cn_digit(d) != '零',
{
    let t = seq!['零', '壹', '贰', '叁', '肆', '伍', '陆', '柒', '捌', '玖'];
    assert(t[1] == '壹' && t[2] == '贰' && t[3] == '叁' && t[4] == '肆' && t[5] == '伍');
    assert(t[6] == '陆' && t[7] == '柒' && t[8] == '捌' && t[9] == '玖');
}

/// Joining two texts without a 零 on both sides of the seam keeps them free of 零零.
proof fn lemma_join(a: Seq<char>, b: Seq<char>)
    requires
        no_double_zero(a),
        no_double_zero(b),
        a.len() == 0 || b.len() == 0 || a.last() != '零' || b[0] != '零',
    ensures
        no_double_zero(a + b),
{
    let s = a + b;
    assert forall|i: int| 0 <= i < s.len() - 1 implies !(#[trigger] s[i] == '零' && s[i + 1] == '零') by {
        if i + 1 < a.len() {
            assert(s[i] == a[i] && s[i + 1] == a[i + 1]);
        } else if i >= a.len() {
            assert(s[i] == b[i - a.len()] && s[i + 1] == b[i + 1 - a.len()]);
        } else {
            assert(s[i] == a.last() && s[i + 1] == b[0]);
        }
    }
}

proof fn lemma_group_cn_shape(g: nat)
    requires
        1 <= g <= 9999,
    ensures
        zero_free_ends(group_cn(g)),
        no_double_zero(group_cn(g)),
    decreases g,
{
    let p = lead_pos(g);
    let rest = g % pow10(p);
    let d = g / pow10(p);
    assert(1 <= d <= 9);
    lemma_cn_digit_nonzero(d);
    let head = seq![cn_digit(d)] + small_unit(p);
    assert(zero_free_ends(head) && no_double_zero(head)) by {
        if p == 0 {
            assert(head =~= seq![cn_digit(d)]);
        } else if p == 1 {
            assert(head =~= seq![cn_digit(d), '拾']);
        } else if p == 2 {
            assert(head =~= seq![cn_digit(d), '佰']);
        } else {
            assert(head =~= seq![cn_digit(d), '仟']);
        }
    }
    if rest != 0 {
        lemma_group_cn_shape(rest);
        let tail = group_cn(rest);
        if p >= 1 && rest < pow10((p - 1) as nat) {
            let hz = head + seq!['零'];
            lemma_join(head, seq!['零']);
            lemma_join(hz, tail);
            assert(group_cn(g) == hz + tail);
            assert((hz + tail)[0] == head[0]);
            assert((hz + tail).last() == tail.last());
        } else {
            lemma_join(head, tail);
            assert(group_cn(g) == head + tail);
            assert((head + tail)[0] == head[0]);
            assert((head + tail).last() == tail.last());
        }
    }
}

proof fn lemma_group_part(zero: bool, g: nat, unit: Seq<char>)
    requires
        1 <= g <= 9999,
        no_double_zero(unit),
        unit.len() == 0 || unit[0] != '零',
    ensures
        no_double_zero(zero_if(zero) + group_text(g) + unit),
        (zero_if(zero) + group_text(g) + unit).len() > 0,
        !zero ==> (zero_if(zero) + group_text(g) + unit)[0] != '零',
        unit.len() == 0 ==> (zero_if(zero) + group_text(g) + unit).last() != '零',
        unit.len() > 0 ==> (zero_if(zero) + group_text(g) + unit).last() == unit.last(),
{
    lemma_group_cn_shape(g);
    let t = group_text(g);
    assert(t == group_cn(g));
    lemma_join(zero_if(zero), t);
    lemma_join(zero_if(zero) + t, unit);
    let s = zero_if(zero) + t + unit;
    if !zero {
        assert(s[0] == t[0]);
    }
    if unit.len() == 0 {
        assert(s.last() == t.last());
    }
}

proof fn lemma_int_cn_shape(n: nat)
    requires
        n < 1_000_000_000_000,
    ensures
        no_double_zero(int_cn(n)),
        int_cn(n).len() > 0,
        n > 0 ==> int_cn(n).last() != '零',
{
    if n > 0 {
        let yi = n / 100_000_000;
        let wan = (n / 10_000) % 10_000;
        let ge = n % 10_000;
        assert(yi < 10000);
        let a = if yi > 0 { group_text(yi) + seq!['亿'] } else { Seq::empty() };
        let b = if wan > 0 {
            zero_if(yi > 0 && wan < 1000) + group_text(wan) + seq!['万']
        } else {
            Seq::empty()
        };
        let c = if ge > 0 {
            zero_if(units_zero(yi, wan, ge)) + group_text(ge)
        } else {
            Seq::empty()
        };
        if yi > 0 {
            lemma_group_part(false, yi, seq!['亿']);
            assert(zero_if(false) + group_text(yi) + seq!['亿'] =~= a);
        }
        if wan > 0 {
            lemma_group_part(yi > 0 && wan < 1000, wan, seq!['万']);
        }
        if ge > 0 {
            lemma_group_part(units_zero(yi, wan, ge), ge, Seq::empty());
            assert(zero_if(units_zero(yi, wan, ge)) + group_text(ge) + Seq::<char>::empty() =~= c);
        }
        lemma_join(a, b);
        lemma_join(a + b, c);
        assert(int_cn(n) == a + b + c);
        if ge > 0 {
            assert((a + b + c).last() == c.last());
        } else if wan > 0 {
            assert(c.len() == 0);
            assert((a + b + c).last() == b.last());
        } else {
            assert(yi > 0);
            assert((a + b + c).last() == a.last());
        }
    }
}

/// Whatever amount is accepted, its words never hold 零 twice in a row (a run of zeros
/// is written as one 零), and they end in 整 or in 分.
pub proof fn law_amount_words_shape(amount: Seq<char>)
    requires
        rmb_text(amount) is Ok,
    ensures
        no_double_zero(rmb_text(amount)->Ok_0),
        rmb_text(amount)->Ok_0.last() == '整' || rmb_text(amount)->Ok_0.last() == '分',
{
    let a = trim(amount);
    let (ip, dp) = amount_parts(a);
    let v = digits_value(ip);
    let j = dec_digit(dp, 0);
    let f = dec_digit(dp, 1);
    if dp.len() > 0 {
        assert(is_digit(dp[0]));
    }
    if dp.len() > 1 {
        assert(is_digit(dp[1]));
    }
    assert(j <= 9 && f <= 9);
    lemma_int_cn_shape(v);
    let d = dec_cn(j, f);
    assert(no_double_zero(d)) by {
        if j == 0 && f == 0 {
        } else if j == 0 {
            lemma_cn_digit_nonzero(f);
            if f > 0 {
                assert(d =~= seq!['零', cn_digit(f), '分']);
            } else {
                assert(d =~= seq!['零', '整']);
            }
        } else {
            if f > 0 {
                assert(d =~= seq![cn_digit(j), '角', cn_digit(f), '分']);
            } else {
                assert(d =~= seq![cn_digit(j), '角', '整']);
            }
        }
    }
    lemma_join(int_cn(v), seq!['元']);
    lemma_join(int_cn(v) + seq!['元'], d);
    assert(rmb_text(amount)->Ok_0 == int_cn(v) + seq!['元'] + d);
    assert((int_cn(v) + seq!['元'] + d).last() == d.last());
}

impl Rmb {
    /// Plugin metadata.
    pub fn info() -> (i: PluginInfo)
        ensures
            i.name@ == "rmb"@,
            i.version@ == crate::plugin::plugin_version(),
            i.description@ == "人民币金额转大写（财会大写）"@,
    {
        info_of("rmb", "人民币金额转大写（财会大写）")
    }

    /// The amount in capital numerals.
    pub fn transform(input: String) -> (r: Result<String, PluginError>)
        ensures
            outcome(r) == rmb_text(input@),
    {
        rmb_to_upper(input.as_str())
    }

    /// The tool this plugin exposes to the agent loop.
    pub fn schema() -> (s: Vec<ToolSchema>)
        ensures
            s@.len() == 1,
            s@[0].name@ == "rmb"@,
            s@[0].description@ == "人民币金额小写转大写（财会大写，精确到分，万亿以下）"@,
            s@[0].parameters@.len() == 1,
            s@[0].parameters@[0].name@ == "amount"@,
            s@[0].parameters@[0].parameter_type@ == "string"@,
            s@[0].parameters@[0].description@ == "金额，如 12345.67"@,
    {
        single_tool("rmb", "人民币金额小写转大写（财会大写，精确到分，万亿以下）", "amount", "金额，如 12345.67")
    }

    /// Tool call: `args` is a JSON object whose `amount` member is converted.
    pub fn invoke(tool: String, args: String) -> (r: Result<String, PluginError>)
        ensures
            outcome(r) == (match tool_input("rmb"@, "amount"@, tool@, args@) {
                Ok(text) => rmb_text(text),
                Err(e) => Err(e),
            }),
    {
        match crate::plugin::read_tool_input("rmb", "amount", tool.as_str(), args.as_str()) {
            Ok(text) => Self::transform(text),
            Err(e) => Err(e),
        }
    }
}

/// The capital numerals of the ten digits are, in order, 零壹贰叁肆伍陆柒捌玖, and no two
/// digits share a numeral, so the words of a digit determine it.
pub proof fn law_capital_digits(d: nat, e: nat)
    requires
        d <= 9,
        e <= 9,
    ensures
        cn_digit(d) == "零壹贰叁肆伍陆柒捌玖"@[d as int],
        cn_digit(d) == cn_digit(e) ==> d == e,
        d != 0 ==> cn_digit(d) != '零',
{
    reveal_strlit("零壹贰叁肆伍陆柒捌玖");
    let t = seq!['零', '壹', '贰', '叁', '肆', '伍', '陆', '柒', '捌', '玖'];
    assert(t[0] == '零' && t[1] == '壹' && t[2] == '贰' && t[3] == '叁' && t[4] == '肆');
    assert(t[5] == '伍' && t[6] == '陆' && t[7] == '柒' && t[8] == '捌' && t[9] == '玖');
    assert("零壹贰叁肆伍陆柒捌玖"@ =~= t);
}

} // verus!
