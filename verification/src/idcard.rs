//! Chinese resident identity numbers (GB 11643-1999, 18 characters).
//!
//! Six region digits, eight birth-date digits (YYYYMMDD), three sequence digits (the
//! 17th is odd for men, even for women) and a check character: the weighted sum of the
//! first 17 digits with weights 7,9,10,5,8,4,2,1,6,3,7,9,10,5,8,4,2, taken mod 11,
//! indexes `1 0 X 9 8 7 6 5 4 3 2`. Checks, in order: length (bytes), the first 17 are
//! digits, birth date, check character.

use vstd::prelude::*;

use crate::decimal::{all_digits, digit_of, digit_value, digits_value, is_digit, is_digit_char};
use crate::plugin::{err, info_of, outcome, single_tool, tool_input, Outcome, PluginError, PluginInfo, ToolSchema};
use crate::samples::call_result;
use crate::text::{chars_of, extend_chars, extend_str, slice_chars, string_of, trim, trim_chars, utf8_len};

verus! {

/// The identity-number plugin.
pub struct Idcard;

/// Gregorian leap year.
pub open spec fn is_leap(y: nat) -> bool {
    y % 4 == 0 && (y % 100 != 0 || y % 400 == 0)
}

/// Days in month `m` of year `y`.
pub open spec fn days_in_month(y: nat, m: nat) -> nat {
    if m == 2 {
        if is_leap(y) { 29 } else { 28 }
    } else if m == 4 || m == 6 || m == 9 || m == 11 {
        30
    } else {
        31
    }
}

/// A birth date that the plugin accepts: year 1900–2099, a real month and day.
pub open spec fn valid_birth(y: nat, m: nat, d: nat) -> bool {
    1900 <= y <= 2099 && 1 <= m <= 12 && 1 <= d <= days_in_month(y, m)
}

/// The birth date written at positions 6..14 of `id` is valid.
pub open spec fn birth_ok(id: Seq<char>) -> bool {
    valid_birth(
        digits_value(id.subrange(6, 10)),
        digits_value(id.subrange(10, 12)),
        digits_value(id.subrange(12, 14)),
    )
}

/// Weight of position `i` (0-based) in the checksum.
pub open spec fn weight(i: int) -> nat {
    let w = seq![7nat, 9, 10, 5, 8, 4, 2, 1, 6, 3, 7, 9, 10, 5, 8, 4, 2];
    w[i]
}

/// Weighted sum of the first `n` digits of `id`.
pub open spec fn weighted_sum(id: Seq<char>, n: int) -> nat
    decreases n,
{
    if n <= 0 {
        0
    } else {
        weighted_sum(id, n - 1) + digit_value(id[n - 1]) * weight(n - 1)
    }
}

/// The check character for a weighted sum.
pub open spec fn check_char(sum: nat) -> char {
    let t = seq!['1', '0', 'X', '9', '8', '7', '6', '5', '4', '3', '2'];
    t[(sum % 11) as int]
}

/// `char::to_ascii_uppercase`.
pub open spec fn ascii_upper(c: char) -> char {
    if 'a' <= c && c <= 'z' {
        ((c as u32) - 32) as char
    } else {
        c
    }
}

/// The 18th character matches the checksum of the first 17 digits.
pub open spec fn checksum_ok(id: Seq<char>) -> bool {
    check_char(weighted_sum(id, 17)) == ascii_upper(id[17])
}

/// What `transform` returns for `input`.
pub open spec fn idcard_check(input: Seq<char>) -> Outcome {
    let id = trim(input);
    if utf8_len(id) != 18 {
        Err(("length"@, "长度错误：应为 18 位"@))
    } else if !(id.len() >= 17 && all_digits(id.take(17))) {
        Err(("format"@, "格式错误：前 17 位须为数字"@))
    } else if !birth_ok(id) {
        Err(("date"@, "出生日期非法"@))
    } else if !checksum_ok(id) {
        Err(("checksum"@, "校验位错误"@))
    } else {
        let gender = if digit_value(id[16]) % 2 == 1 { "男"@ } else { "女"@ };
        Ok(gender + " · "@ + id.subrange(6, 10) + "-"@ + id.subrange(10, 12) + "-"@
            + id.subrange(12, 14) + " · 地区 "@ + id.subrange(0, 6))
    }
}

/// The number written by `id[from..to]`, all digits.
fn value_of(id: &[char], from: usize, to: usize) -> (v: u64)
    requires
        from <= to <= id@.len(),
        to - from <= 4,
        all_digits(id@.subrange(from as int, to as int)),
    ensures
        v == digits_value(id@.subrange(from as int, to as int)),
{
    let part = slice_chars(id, from, to);
    proof {
        lemma_small_value(part@);
    }
    crate::decimal::digits_value_capped(part.as_slice(), 100_000)
}

proof fn lemma_small_value(s: Seq<char>)
    requires
        s.len() <= 4,
        all_digits(s),
    ensures
        digits_value(s) < 10_000,
    decreases s.len(),
{
    if s.len() > 0 {
        assert(all_digits(s.drop_last())) by {
            assert forall|i: int| 0 <= i < s.drop_last().len() implies is_digit(#[trigger] s.drop_last()[i]) by {
                assert(s.drop_last()[i] == s[i]);
            }
        }
        lemma_small_value(s.drop_last());
        assert(is_digit(s[s.len() - 1]));
        if s.len() == 1 {
            assert(digits_value(s.drop_last()) == 0);
        } else if s.len() == 2 {
            lemma_small_value_bound(s.drop_last(), 1);
        } else if s.len() == 3 {
            lemma_small_value_bound(s.drop_last(), 2);
        } else {
            lemma_small_value_bound(s.drop_last(), 3);
        }
    }
}

proof fn lemma_small_value_bound(s: Seq<char>, n: nat)
    requires
        s.len() == n,
        n <= 3,
        all_digits(s),
    ensures
        n == 1 ==> digits_value(s) < 10,
        n == 2 ==> digits_value(s) < 100,
        n == 3 ==> digits_value(s) < 1000,
    decreases n,
{
    if n > 0 {
        assert(all_digits(s.drop_last())) by {
            assert forall|i: int| 0 <= i < s.drop_last().len() implies is_digit(#[trigger] s.drop_last()[i]) by {
                assert(s.drop_last()[i] == s[i]);
            }
        }
        lemma_small_value_bound(s.drop_last(), (n - 1) as nat);
        assert(is_digit(s[s.len() - 1]));
        if n == 1 {
            assert(digits_value(s.drop_last()) == 0);
        }
    }
}

/// Whether positions 6..14 of `id` (all digits) hold a valid birth date.
pub fn check_birth(id: &[char]) -> (r: Result<(), PluginError>)
    requires
        id@.len() >= 14,
        all_digits(id@.subrange(6, 14)),
    ensures
        r is Ok <==> birth_ok(id@),
        match r {
            Ok(_) => true,
            Err(e) => e.code@ == "date"@ && e.message@ == "出生日期非法"@,
        },
{
    proof {
        assert forall|a: int, b: int| 6 <= a <= b <= 14 implies all_digits(#[trigger] id@.subrange(a, b)) by {
            assert forall|i: int| 0 <= i < b - a implies is_digit(#[trigger] id@.subrange(a, b)[i]) by {
                assert(id@.subrange(a, b)[i] == id@.subrange(6, 14)[a - 6 + i]);
            }
        }
    }
    let y = value_of(id, 6, 10);
    let m = value_of(id, 10, 12);
    let d = value_of(id, 12, 14);
    if !(1900 <= y && y <= 2099) || !(1 <= m && m <= 12) {
        return Err(err("date", "出生日期非法"));
    }
    let max_day: u64 = if m == 2 && y % 4 == 0 && (y % 100 != 0 || y % 400 == 0) {
        29
    } else if m == 2 {
        28
    } else if m == 4 || m == 6 || m == 9 || m == 11 {
        30
    } else {
        31
    };
    if !(1 <= d && d <= max_day) {
        return Err(err("date", "出生日期非法"));
    }
    Ok(())
}

/// Whether the 18th character of `id` is the check character of its first 17 digits.
pub fn check_sum(id: &[char]) -> (r: bool)
    requires
        id@.len() >= 18,
        all_digits(id@.take(17)),
    ensures
        r == checksum_ok(id@),
{
    let weights: [u32; 17] = [7, 9, 10, 5, 8, 4, 2, 1, 6, 3, 7, 9, 10, 5, 8, 4, 2];
    let checks: [char; 11] = ['1', '0', 'X', '9', '8', '7', '6', '5', '4', '3', '2'];
    let mut sum: u64 = 0;
    let mut i: usize = 0;
    while i < 17
        invariant
            id@.len() >= 18,
            all_digits(id@.take(17)),
            i <= 17,
            sum == weighted_sum(id@, i as int),
            sum <= 38654705655 * i,
            forall|j: int| 0 <= j < 17 ==> weights@[j] == weight(j),
        decreases 17 - i,
    {
        assert(id@.take(17)[i as int] == id@[i as int]);
        let d = digit_of(id[i]);
        let w = weights[i] as u64;
        assert((d as u64) * w <= 38654705655) by (nonlinear_arith)
            requires
                d <= 9,
                w <= 0xFFFF_FFFF,
        ;
        sum = sum + (d as u64) * w;
        i = i + 1;
    }
    let c = id[17];
    let up = if 'a' <= c && c <= 'z' { char_minus_32(c) } else { c };
    let t = checks[(sum % 11) as usize];
    assert(t == check_char(sum as nat));
    t == up
}

fn char_minus_32(c: char) -> (r: char)
    requires
        'a' <= c && c <= 'z',
    ensures
        r == ((c as u32) - 32) as char,
{
    let b: u8 = ((c as u32) - 32) as u8;
    b as char
}

impl Idcard {
    /// Plugin metadata.
    pub fn info() -> (i: PluginInfo)
        ensures
            i.name@ == "idcard"@,
            i.version@ == crate::plugin::plugin_version(),
            i.description@ == "中国身份证号校验（18 位）"@,
    {
        info_of("idcard", "中国身份证号校验（18 位）")
    }

    /// Validates an identity number; on success reports gender, birth date and region.
    /// Every failure is a declared error value.
    pub fn transform(input: String) -> (r: Result<String, PluginError>)
        ensures
            outcome(r) == idcard_check(input@),
    {
        let raw = chars_of(input.as_str());
        let id = trim_chars(raw.as_slice());
        let len = crate::text::utf8_len_capped(id.as_slice(), 18);
        if len != 18 {
            return Err(err("length", "长度错误：应为 18 位"));
        }
        if id.len() < 17 {
            return Err(err("format", "格式错误：前 17 位须为数字"));
        }
        let head = slice_chars(id.as_slice(), 0, 17);
        if !crate::decimal::all_digits_chars(head.as_slice()) {
            return Err(err("format", "格式错误：前 17 位须为数字"));
        }
        proof {
            crate::text::lemma_utf8_len_take_mono(id@, 17, id@.len() as int);
            assert(id@.take(id@.len() as int) =~= id@);
            lemma_digits_utf8_len(id@.take(17));
            assert(id@.take(17).take(17) =~= id@.take(17));
            assert forall|i: int| 0 <= i < 8 implies is_digit(#[trigger] id@.subrange(6, 14)[i]) by {
                assert(id@.subrange(6, 14)[i] == id@.take(17)[6 + i]);
            }
        }
        match check_birth(id.as_slice()) {
            Ok(_) => {},
            Err(e) => {
                return Err(e);
            },
        }
        if !check_sum(id.as_slice()) {
            return Err(err("checksum", "校验位错误"));
        }
        assert(id@.take(17)[16] == id@[16]);
        let g = digit_of(id[16]);
        let mut out: Vec<char> = Vec::new();
        if g % 2 == 1 {
            extend_str(&mut out, "男");
        } else {
            extend_str(&mut out, "女");
        }
        extend_str(&mut out, " · ");
        extend_chars(&mut out, slice_chars(id.as_slice(), 6, 10).as_slice());
        extend_str(&mut out, "-");
        extend_chars(&mut out, slice_chars(id.as_slice(), 10, 12).as_slice());
        extend_str(&mut out, "-");
        extend_chars(&mut out, slice_chars(id.as_slice(), 12, 14).as_slice());
        extend_str(&mut out, " · 地区 ");
        extend_chars(&mut out, slice_chars(id.as_slice(), 0, 6).as_slice());
        Ok(string_of(out.as_slice()))
    }
}

impl Idcard {
    /// The tool this plugin exposes to the agent loop.
    pub fn schema() -> (s: Vec<ToolSchema>)
        ensures
            s@.len() == 1,
            s@[0].name@ == "idcard"@,
            s@[0].description@ == "中国身份证号校验（18 位）：性别 · 出生日期 · 地区"@,
            s@[0].parameters@.len() == 1,
            s@[0].parameters@[0].name@ == "id"@,
            s@[0].parameters@[0].parameter_type@ == "string"@,
            s@[0].parameters@[0].description@ == "18 位身份证号"@,
    {
        single_tool("idcard", "中国身份证号校验（18 位）：性别 · 出生日期 · 地区", "id", "18 位身份证号")
    }

    /// Tool call: `args` is a JSON object whose `id` member is checked.
    pub fn invoke(tool: String, args: String) -> (r: Result<String, PluginError>)
        ensures
            outcome(r) == call_result(tool_input("idcard"@, "id"@, tool@, args@), |t| idcard_check(t)),
    {
        match crate::plugin::read_tool_input("idcard", "id", tool.as_str(), args.as_str()) {
            Ok(text) => Self::transform(text),
            Err(e) => Err(e),
        }
    }
}

/// A string of ASCII digits is one byte per character.
proof fn lemma_digits_utf8_len(s: Seq<char>)
    requires
        all_digits(s),
    ensures
        utf8_len(s) == s.len(),
    decreases s.len(),
{
    if s.len() > 0 {
        assert(all_digits(s.drop_last())) by {
            assert forall|i: int| 0 <= i < s.drop_last().len() implies is_digit(#[trigger] s.drop_last()[i]) by {
                assert(s.drop_last()[i] == s[i]);
            }
        }
        lemma_digits_utf8_len(s.drop_last());
        assert(is_digit(s[s.len() - 1]));
    }
}

/// The birth-date check accepts exactly the real Gregorian dates of 1900–2099: months
/// 1, 3, 5, 7, 8, 10 and 12 have 31 days, months 4, 6, 9 and 11 have 30, and February
/// has 29 days in a leap year (divisible by 4, except centuries not divisible by 400)
/// and 28 otherwise.
pub proof fn law_birth_dates_are_calendar_dates(id: Seq<char>)
    ensures
        ({
            let y = digits_value(id.subrange(6, 10));
            let m = digits_value(id.subrange(10, 12));
            let d = digits_value(id.subrange(12, 14));
            let leap = y % 4 == 0 && (y % 100 != 0 || y % 400 == 0);
            birth_ok(id) <==> {
                &&& 1900 <= y <= 2099
                &&& 1 <= d
                &&& {
                    ||| (m == 1 || m == 3 || m == 5 || m == 7 || m == 8 || m == 10 || m == 12) && d <= 31
                    ||| (m == 4 || m == 6 || m == 9 || m == 11) && d <= 30
                    ||| m == 2 && leap && d <= 29
                    ||| m == 2 && !leap && d <= 28
                }
            }
        }),
{
}

} // verus!
