//! Bank card numbers: Luhn checksum and card network by number prefix.
//!
//! Checks, in order: length 13–19 (bytes of the trimmed input), digits only, checksum.

use vstd::prelude::*;

use crate::decimal::{all_digits, digit_of, digit_value, is_digit_char};
use crate::plugin::{err, info_of, outcome, single_tool, tool_input, Outcome, PluginError, PluginInfo, ToolSchema};
use crate::text::{chars_of, extend_str, starts_with, string_of, trim, trim_chars, utf8_len};

verus! {

/// The Luhn plugin.
pub struct Luhn;

/// Contribution of digit `d` at position `k` counted from the right (the rightmost is 0):
/// every second digit is doubled, and a two-digit double counts as the sum of its digits.
pub open spec fn luhn_weight(d: nat, k: nat) -> nat {
    if k % 2 == 1 {
        (2 * d) / 10 + (2 * d) % 10
    } else {
        d
    }
}

/// Sum of the contributions of `ds`, whose last digit stands at position `k` from the right.
pub open spec fn luhn_total(ds: Seq<u8>, k: nat) -> nat
    decreases ds.len(),
{
    if ds.len() == 0 {
        0
    } else {
        luhn_weight(ds.last() as nat, k) + luhn_total(ds.drop_last(), k + 1)
    }
}

/// The Luhn checksum holds: the total is a multiple of 10.
pub open spec fn luhn_valid(ds: Seq<u8>) -> bool {
    luhn_total(ds, 0) % 10 == 0
}

/// The digit values of a digit string.
pub open spec fn digit_values(s: Seq<char>) -> Seq<u8> {
    Seq::new(s.len(), |i: int| digit_value(s[i]) as u8)
}

/// The card network named by the number's prefix.
pub open spec fn brand_spec(id: Seq<char>) -> Seq<char> {
    if starts_with(id, "4"@) {
        "Visa"@
    } else if starts_with(id, "34"@) || starts_with(id, "37"@) {
        "Amex"@
    } else if starts_with(id, "51"@) || starts_with(id, "52"@) || starts_with(id, "53"@)
        || starts_with(id, "54"@) || starts_with(id, "55"@) {
        "Mastercard"@
    } else if starts_with(id, "62"@) {
        "UnionPay"@
    } else {
        "未知"@
    }
}

/// What `transform` returns for `input`.
pub open spec fn luhn_check(input: Seq<char>) -> Outcome {
    let id = trim(input);
    if !(13 <= utf8_len(id) <= 19) {
        Err(("length"@, "长度错误：应为 13–19 位"@))
    } else if !all_digits(id) {
        Err(("format"@, "格式错误：只能包含数字"@))
    } else if !luhn_valid(digit_values(id)) {
        Err(("checksum"@, "校验位错误"@))
    } else {
        Ok("有效 · "@ + brand_spec(id))
    }
}

/// The Luhn checksum of a digit sequence.
pub fn luhn_ok(digits: &[u8]) -> (r: bool)
    requires
        forall|i: int| 0 <= i < digits@.len() ==> #[trigger] digits@[i] <= 9,
    ensures
        r == luhn_valid(digits@),
{
    let n = digits.len();
    let mut sum: u32 = 0;
    let mut k: usize = 0;
    while k < n
        invariant
            n == digits@.len(),
            forall|i: int| 0 <= i < digits@.len() ==> #[trigger] digits@[i] <= 9,
            k <= n,
            sum == luhn_total(digits@.skip(n - k), 0) % 10,
        decreases n - k,
    {
        let d = digits[n - 1 - k];
        let c: u32 = if k % 2 == 1 {
            let doubled = d * 2;
            (doubled / 10 + doubled % 10) as u32
        } else {
            d as u32
        };
        let ghost before = luhn_total(digits@.skip(n - k), 0);
        proof {
            lemma_luhn_total_front(digits@.skip(n - k - 1), 0);
            assert(digits@.skip(n - k - 1).drop_first() =~= digits@.skip(n - k));
            assert(digits@.skip(n - k - 1)[0] == d);
            assert(digits@.skip(n - k - 1).len() == k + 1);
            assert(luhn_total(digits@.skip(n - k - 1), 0) == c + before);
            assert((sum + c) % 10 == (c + before) % 10) by (nonlinear_arith)
                requires
                    sum == before % 10,
            ;
        }
        sum = (sum + c) % 10;
        k = k + 1;
    }
    assert(digits@.skip(0) =~= digits@);
    sum == 0
}

/// A leading 0 never changes the Luhn checksum: its position from the right is the
/// length of the rest, and a 0 contributes 0 there, doubled or not.
pub proof fn law_leading_zero_keeps_luhn(ds: Seq<u8>)
    ensures
        luhn_total(seq![0u8] + ds, 0) == luhn_total(ds, 0),
        luhn_valid(seq![0u8] + ds) == luhn_valid(ds),
{
    let z = seq![0u8] + ds;
    lemma_luhn_total_front(z, 0);
    assert(z.drop_first() =~= ds);
    assert(z[0] == 0u8);
}

/// Adding a digit at the front: its position from the right is the length of the rest.
proof fn lemma_luhn_total_front(ds: Seq<u8>, k: nat)
    requires
        ds.len() > 0,
    ensures
        luhn_total(ds, k) == luhn_weight(ds[0] as nat, (k + ds.len() - 1) as nat) + luhn_total(ds.drop_first(), k),
    decreases ds.len(),
{
    if ds.len() > 1 {
        lemma_luhn_total_front(ds.drop_last(), k + 1);
        assert(ds.drop_last().drop_first() =~= ds.drop_first().drop_last());
        assert(ds.drop_first().last() == ds.last());
        assert(ds.drop_last()[0] == ds[0]);
    } else {
        assert(ds.drop_first().len() == 0);
        assert(ds.drop_last().len() == 0);
        assert(luhn_total(ds.drop_first(), k) == 0);
        assert(luhn_total(ds.drop_last(), k + 1) == 0);
        assert(ds.last() == ds[0]);
    }
}

/// The card network of a card number, from its prefix.
pub fn brand(id: &str) -> (r: &'static str)
    ensures
        r@ == brand_spec(id@),
{
    let v = chars_of(id);
    brand_of(v.as_slice())
}

fn starts(v: &[char], p: &str) -> (r: bool)
    ensures
        r == starts_with(v@, p@),
{
    let pv = chars_of(p);
    crate::text::starts_with_chars(v, pv.as_slice())
}

fn brand_of(v: &[char]) -> (r: &'static str)
    ensures
        r@ == brand_spec(v@),
{
    if starts(v, "4") {
        "Visa"
    } else if starts(v, "34") || starts(v, "37") {
        "Amex"
    } else if starts(v, "51") || starts(v, "52") || starts(v, "53") || starts(v, "54") || starts(v, "55") {
        "Mastercard"
    } else if starts(v, "62") {
        "UnionPay"
    } else {
        "未知"
    }
}

/// The digit values of `s`, or `None` when a character is not a digit.
fn to_digits(s: &[char]) -> (r: Option<Vec<u8>>)
    ensures
        match r {
            Some(ds) => all_digits(s@) && ds@ == digit_values(s@),
            None => !all_digits(s@),
        },
{
    let mut ds: Vec<u8> = Vec::new();
    let mut i: usize = 0;
    while i < s.len()
        invariant
            i <= s@.len(),
            all_digits(s@.take(i as int)),
            ds@ == digit_values(s@.take(i as int)),
        decreases s@.len() - i,
    {
        if !is_digit_char(s[i]) {
            assert(!crate::decimal::is_digit(s@[i as int]));
            return None;
        }
        ds.push(digit_of(s[i]));
        assert(s@.take(i + 1) =~= s@.take(i as int).push(s@[i as int]));
        assert(ds@ =~= digit_values(s@.take(i + 1)));
        i = i + 1;
    }
    assert(s@.take(s@.len() as int) =~= s@);
    Some(ds)
}

impl Luhn {
    /// Plugin metadata.
    pub fn info() -> (i: PluginInfo)
        ensures
            i.name@ == "luhn"@,
            i.version@ == crate::plugin::plugin_version(),
            i.description@ == "银行卡号 Luhn 校验 + 卡组织识别"@,
    {
        info_of("luhn", "银行卡号 Luhn 校验 + 卡组织识别")
    }

    /// Validates a card number; on success names its network.
    pub fn transform(input: String) -> (r: Result<String, PluginError>)
        ensures
            outcome(r) == luhn_check(input@),
    {
        let raw = chars_of(input.as_str());
        let id = trim_chars(raw.as_slice());
        let len = crate::text::utf8_len_capped(id.as_slice(), 19);
        if !(13 <= len && len <= 19) {
            return Err(err("length", "长度错误：应为 13–19 位"));
        }
        proof {
            crate::text::lemma_utf8_len_take_mono(id@, 0, id@.len() as int);
            assert(id@.take(id@.len() as int) =~= id@);
        }
        let digits = match to_digits(id.as_slice()) {
            Some(ds) => ds,
            None => {
                return Err(err("format", "格式错误：只能包含数字"));
            },
        };
        if !luhn_ok(digits.as_slice()) {
            return Err(err("checksum", "校验位错误"));
        }
        let mut out: Vec<char> = Vec::new();
        extend_str(&mut out, "有效 · ");
        extend_str(&mut out, brand_of(id.as_slice()));
        Ok(string_of(out.as_slice()))
    }

    /// The tool this plugin exposes to the agent loop.
    pub fn schema() -> (s: Vec<ToolSchema>)
        ensures
            s@.len() == 1,
            s@[0].name@ == "luhn"@,
            s@[0].description@ == "银行卡号 Luhn 校验 + 卡组织识别（Visa/Mastercard/Amex/UnionPay）"@,
            s@[0].parameters@.len() == 1,
            s@[0].parameters@[0].name@ == "card_number"@,
            s@[0].parameters@[0].parameter_type@ == "string"@,
            s@[0].parameters@[0].description@ == "13–19 位银行卡号"@,
    {
        single_tool(
            "luhn",
            "银行卡号 Luhn 校验 + 卡组织识别（Visa/Mastercard/Amex/UnionPay）",
            "card_number",
            "13–19 位银行卡号",
        )
    }

    /// Tool call: `args` is a JSON object whose `card_number` member is checked.
    pub fn invoke(tool: String, args: String) -> (r: Result<String, PluginError>)
        ensures
            outcome(r) == (match tool_input("luhn"@, "card_number"@, tool@, args@) {
                Ok(text) => luhn_check(text),
                Err(e) => Err(e),
            }),
    {
        match crate::plugin::read_tool_input("luhn", "card_number", tool.as_str(), args.as_str()) {
            Ok(text) => Self::transform(text),
            Err(e) => Err(e),
        }
    }
}

/// Card networks by number prefix: a leading 4 is Visa; 34 and 37 are American
/// Express; 51 to 55 are Mastercard; 62 is UnionPay; any other number is of an unknown
/// network.
pub proof fn law_card_networks(id: Seq<char>)
    ensures
        id.len() >= 1 && id[0] == '4' ==> brand_spec(id) == "Visa"@,
        id.len() >= 2 && id[0] == '3' && (id[1] == '4' || id[1] == '7') ==> brand_spec(id) == "Amex"@,
        id.len() >= 2 && id[0] == '5' && '1' <= id[1] && id[1] <= '5' ==> brand_spec(id) == "Mastercard"@,
        id.len() >= 2 && id[0] == '6' && id[1] == '2' ==> brand_spec(id) == "UnionPay"@,
        !(id.len() >= 1 && id[0] == '4') && !(id.len() >= 2 && id[0] == '3' && (id[1] == '4' || id[1] == '7'))
            && !(id.len() >= 2 && id[0] == '5' && '1' <= id[1] && id[1] <= '5') && !(id.len() >= 2 && id[0] == '6' && id[1] == '2')
            ==> brand_spec(id) == "未知"@,
{
    reveal_strlit("4");
    reveal_strlit("34");
    reveal_strlit("37");
    reveal_strlit("51");
    reveal_strlit("52");
    reveal_strlit("53");
    reveal_strlit("54");
    reveal_strlit("55");
    reveal_strlit("62");
    if id.len() >= 1 {
        assert(starts_with(id, "4"@) <==> id[0] == '4') by {
            if id[0] == '4' {
                assert(id.take(1) =~= "4"@);
            }
            if starts_with(id, "4"@) {
                assert(id.take(1)[0] == id[0]);
            }
        }
    }
    if id.len() >= 2 {
        assert forall|t: Seq<char>| t.len() == 2 implies (starts_with(id, t) <==> (id[0] == t[0] && id[1] == t[1])) by {
            if id[0] == t[0] && id[1] == t[1] {
                assert(id.take(2) =~= t);
            }
            if starts_with(id, t) {
                assert(id.take(2)[0] == id[0] && id.take(2)[1] == id[1]);
            }
        }
        assert(starts_with(id, "34"@) <==> (id[0] == '3' && id[1] == '4'));
        assert(starts_with(id, "37"@) <==> (id[0] == '3' && id[1] == '7'));
        assert(starts_with(id, "51"@) <==> (id[0] == '5' && id[1] == '1'));
        assert(starts_with(id, "52"@) <==> (id[0] == '5' && id[1] == '2'));
        assert(starts_with(id, "53"@) <==> (id[0] == '5' && id[1] == '3'));
        assert(starts_with(id, "54"@) <==> (id[0] == '5' && id[1] == '4'));
        assert(starts_with(id, "55"@) <==> (id[0] == '5' && id[1] == '5'));
        assert(starts_with(id, "62"@) <==> (id[0] == '6' && id[1] == '2'));
    } else {
        assert(!starts_with(id, "34"@) && !starts_with(id, "37"@) && !starts_with(id, "51"@) && !starts_with(id, "52"@));
        assert(!starts_with(id, "53"@) && !starts_with(id, "54"@) && !starts_with(id, "55"@) && !starts_with(id, "62"@));
        if id.len() == 0 {
            assert(!starts_with(id, "4"@));
        }
    }
}

/// A number that passes every check is reported valid with its network: for example a
/// valid number beginning with 34 or 37 is reported `有效 · Amex`.
pub proof fn law_valid_cards_name_their_network(input: Seq<char>)
    requires
        luhn_check(input) is Ok,
    ensures
        luhn_check(input) == Ok::<Seq<char>, (Seq<char>, Seq<char>)>("有效 · "@ + brand_spec(trim(input))),
        ({
            let id = trim(input);
            id.len() >= 2 && id[0] == '3' && (id[1] == '4' || id[1] == '7')
                ==> luhn_check(input) == Ok::<Seq<char>, (Seq<char>, Seq<char>)>("有效 · Amex"@)
        }),
{
    law_card_networks(trim(input));
    reveal_strlit("有效 · ");
    reveal_strlit("Amex");
    reveal_strlit("有效 · Amex");
    assert("有效 · "@ + "Amex"@ =~= "有效 · Amex"@);
}

} // verus!
