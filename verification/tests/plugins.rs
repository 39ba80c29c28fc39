use spark_host::idcard::Idcard;
use spark_host::luhn::{brand, luhn_ok, Luhn};
use spark_host::plugin::PluginError;
use spark_host::rmb::{dec_to_cn, group_to_cn, int_to_cn, rmb_to_upper, Rmb};
use spark_host::samples::{Attacker, Reverse, Upper};

/// The error of a declined call.
fn declined(r: Result<String, PluginError>) -> PluginError {
    match r {
        Err(e) => e,
        Ok(out) => panic!("期望失败，实际成功: {out}"),
    }
}

#[test]
fn valid_card_returns_brand() {
    assert_eq!(Luhn::info().name, "luhn");
    assert_eq!(Luhn::transform("4242424242424242".into()), Ok("有效 · Visa".into()));
    assert_eq!(Luhn::transform("5105105105105100".into()), Ok("有效 · Mastercard".into()));
    assert_eq!(Luhn::transform("378282246310005".into()), Ok("有效 · Amex".into()));
}

#[test]
fn invalid_card_returns_declared_errors() {
    let cases = [
        ("4242424242424243", "校验位错误"),
        ("4242-4242-4242-4242", "格式错误：只能包含数字"),
        ("123", "长度错误：应为 13–19 位"),
    ];
    for (input, want) in cases {
        let error = declined(Luhn::transform(input.into()));
        assert_eq!(error.message, want, "输入 `{input}` 应报 `{want}`");
    }
}

#[test]
fn luhn_codes_and_brands() {
    assert_eq!(declined(Luhn::transform("123".into())).code, "length");
    assert_eq!(declined(Luhn::transform("4242-4242-4242-4242".into())).code, "format");
    assert_eq!(declined(Luhn::transform("4242424242424243".into())).code, "checksum");
    assert_eq!(Luhn::transform("  6200000000000005 ".into()), Ok("有效 · UnionPay".into()));
    assert_eq!(brand("4"), "Visa");
    assert_eq!(brand("37"), "Amex");
    assert_eq!(brand("55"), "Mastercard");
    assert_eq!(brand("62"), "UnionPay");
    assert_eq!(brand("99"), "未知");
    assert!(luhn_ok(&[4, 2, 4, 2, 4, 2, 4, 2, 4, 2, 4, 2, 4, 2, 4, 2]));
    assert!(!luhn_ok(&[4, 2, 4, 2, 4, 2, 4, 2, 4, 2, 4, 2, 4, 2, 4, 3]));
    assert!(luhn_ok(&[0]));
    assert!(luhn_ok(&[7, 9, 9, 2, 7, 3, 9, 8, 7, 1, 3]));
    assert!(luhn_ok(&[0, 7, 9, 9, 2, 7, 3, 9, 8, 7, 1, 3]));
    assert!(!luhn_ok(&[0, 7, 9, 9, 2, 7, 3, 9, 8, 7, 1, 4]));
    // 13 bytes but not digits: the length passes, the format fails.
    assert_eq!(declined(Luhn::transform("一二三四".into())).code, "length");
    assert_eq!(declined(Luhn::transform("一二三四x".into())).code, "format");
}

#[test]
fn luhn_tool_call() {
    assert_eq!(
        Luhn::invoke("luhn".into(), "{\"card_number\":\"4242424242424242\"}".into()),
        Ok("有效 · Visa".into())
    );
    let e = declined(Luhn::invoke("card".into(), "{}".into()));
    assert_eq!((e.code.as_str(), e.message.as_str()), ("tool", "未知工具: card"));
    let e = declined(Luhn::invoke("luhn".into(), "not json".into()));
    assert_eq!((e.code.as_str(), e.message.as_str()), ("args", "参数必须是 JSON 对象"));
    let e = declined(Luhn::invoke("luhn".into(), "{\"number\":\"1\"}".into()));
    assert_eq!((e.code.as_str(), e.message.as_str()), ("args", "缺少 card_number 参数"));
    assert_eq!(Luhn::schema()[0].parameters[0].name, "card_number");
}

#[test]
fn valid_id_extracts_info() {
    assert_eq!(Idcard::info().name, "idcard");
    assert_eq!(
        Idcard::transform("110101199001010015".into()),
        Ok("男 · 1990-01-01 · 地区 110101".into())
    );
    assert_eq!(
        Idcard::transform("110101199001010023".into()),
        Ok("女 · 1990-01-01 · 地区 110101".into())
    );
}

#[test]
fn invalid_id_returns_declared_errors() {
    let cases = [
        ("123", "length", "长度错误：应为 18 位"),
        ("11010A199001010015", "format", "格式错误：前 17 位须为数字"),
        ("110101199013010015", "date", "出生日期非法"),
        ("110101199001010010", "checksum", "校验位错误"),
    ];
    for (input, code, message) in cases {
        let error = declined(Idcard::transform(input.into()));
        assert_eq!(error.code, code);
        assert_eq!(error.message, message);
    }
}

#[test]
fn idcard_dates_and_split_characters() {
    // 2000-02-29 is a leap day; 1900-02-29 is not.
    let e = declined(Idcard::transform("110101190002290011".into()));
    assert_eq!(e.code, "date");
    assert!(Idcard::transform("11010120000229001X".into()) != Err(spark_host::plugin::err("date", "出生日期非法")));
    // 18 bytes whose 17th byte splits a character: a declared format error, no panic.
    for input in ["一二三四五六", "123456789012345中"] {
        let e = declined(Idcard::transform(input.into()));
        assert_eq!(e.code, "format", "输入 `{input}`");
        assert_eq!(e.message, "格式错误：前 17 位须为数字");
    }
    assert_eq!(
        Idcard::invoke("idcard".into(), "{\"id\":\"110101199001010015\"}".into()),
        Ok("男 · 1990-01-01 · 地区 110101".into())
    );
}

#[test]
fn amount_to_upper() {
    let cases = [
        ("0", "零元整"),
        ("0.05", "零元零伍分"),
        ("0.50", "零元伍角整"),
        ("1", "壹元整"),
        ("1.00", "壹元整"),
        ("1.05", "壹元零伍分"),
        ("1.50", "壹元伍角整"),
        ("10.10", "壹拾元壹角整"),
        ("12.3", "壹拾贰元叁角整"),
        ("10000", "壹万元整"),
        ("10001.01", "壹万零壹元零壹分"),
        ("10010", "壹万零壹拾元整"),
        ("2003", "贰仟零叁元整"),
        ("100000001", "壹亿零壹元整"),
        ("100200300", "壹亿零贰拾万零叁佰元整"),
        ("12345.67", "壹万贰仟叁佰肆拾伍元陆角柒分"),
    ];
    for (input, expected) in cases {
        assert_eq!(Rmb::transform(input.into()), Ok(expected.to_string()), "输入 `{input}`");
    }
}

#[test]
fn invalid_amount_returns_declared_errors() {
    let cases = [
        ("12.345", "precision", "金额最多精确到分"),
        ("-5", "format", "金额格式错误：整数部分只能为数字"),
        ("abc", "format", "金额格式错误：整数部分只能为数字"),
        ("1000000000000", "range", "金额超出支持范围（< 万亿）"),
    ];
    for (input, code, message) in cases {
        let error = declined(Rmb::transform(input.into()));
        assert_eq!(error.code, code, "输入 `{input}`");
        assert_eq!(error.message, message, "输入 `{input}`");
    }
}

#[test]
fn rmb_parts() {
    assert_eq!(group_to_cn(0), "零");
    assert_eq!(group_to_cn(1010), "壹仟零壹拾");
    assert_eq!(group_to_cn(1001), "壹仟零壹");
    assert_eq!(group_to_cn(9999), "玖仟玖佰玖拾玖");
    assert_eq!(int_to_cn(0), "零");
    assert_eq!(int_to_cn(999_999_999_999), "玖仟玖佰玖拾玖亿玖仟玖佰玖拾玖万玖仟玖佰玖拾玖");
    assert_eq!(int_to_cn(100_001_000), "壹亿零壹仟");
    assert_eq!(int_to_cn(100_000_005), "壹亿零伍");
    assert_eq!(rmb_to_upper("100001000"), Ok("壹亿零壹仟元整".into()));
    assert_eq!(dec_to_cn("00"), "整");
    assert_eq!(dec_to_cn("05"), "零伍分");
    assert_eq!(dec_to_cn("30"), "叁角整");
    assert_eq!(rmb_to_upper(" 7. "), Ok("柒元整".into()));
    assert_eq!(declined(rmb_to_upper("1.2.3")).message, "金额格式错误：小数部分只能为数字");
    assert_eq!(declined(rmb_to_upper("99999999999999999999999")).code, "range");
    assert_eq!(rmb_to_upper("000000000000000000000012"), Ok("壹拾贰元整".into()));
    assert_eq!(Rmb::invoke("rmb".into(), "{\"amount\":\"2003\"}".into()), Ok("贰仟零叁元整".into()));
}

#[test]
fn amount_words_never_repeat_zero() {
    for input in ["100000005", "1000000001.01", "10000100", "0.05", "900090009.09", "100200300", "1001.00"] {
        let words = Rmb::transform(input.into()).expect("accepted");
        assert!(!words.contains("零零"), "输入 `{input}`: {words}");
        assert!(words.ends_with('整') || words.ends_with('分'), "输入 `{input}`: {words}");
    }
    assert_eq!(Rmb::transform("900090009.09".into()), Ok("玖亿零玖万零玖元零玖分".to_string()));
}

#[test]
fn happy_path() {
    assert_eq!(Upper::info().name, "upper");
    assert_eq!(Upper::transform("hello".into()), Ok("HELLO".into()));
}

#[test]
fn trap_is_contained() {
    // The component panics on `trap…`; the host sees a trap, not an answer.
    assert_eq!(Upper::try_transform("trap-me".into()), None);
}

#[test]
fn isolated_after_trap() {
    assert!(Upper::try_transform("trap-x".into()).is_none());
    assert_eq!(Upper::info().name, "upper");
    assert_eq!(Upper::transform("ok".into()), Ok("OK".into()));
}

#[test]
fn second_plugin_same_host() {
    assert_eq!(Reverse::info().name, "reverse");
    assert_eq!(Reverse::transform("hello".into()), Ok("olleh".into()));
}

#[test]
fn upper_declines_err_prefix() {
    let e = declined(Upper::transform("error x".into()));
    assert_eq!(e.code, "rejected");
    assert_eq!(e.message, "拒绝处理: error x");
    assert_eq!(Upper::transform("héllo".into()), Ok("HÉLLO".into()));
    assert_eq!(Upper::try_invoke("upper".into(), "{\"text\":\"trap\"}".into()), None);
    assert_eq!(Upper::try_invoke("upper".into(), "{\"text\":\"abc\"}".into()), Some(Ok("ABC".into())));
    assert_eq!(Reverse::invoke("reverse".into(), "{\"text\":\"abc\"}".into()), Ok("cba".into()));
    assert_eq!(Reverse::transform("黑风雷".into()), Ok("雷风黑".into()));
}

#[test]
fn attacker_bombs_are_recognised() {
    assert!(Attacker::is_bomb("loop"));
    assert!(Attacker::is_bomb("alloc"));
    assert!(!Attacker::is_bomb("loops"));
    assert_eq!(Attacker::transform("hi".into()), Ok("hi".into()));
    assert_eq!(Attacker::try_invoke("attacker".into(), "{\"action\":\"loop\"}".into()), None);
    assert_eq!(Attacker::try_invoke("attacker".into(), "{\"action\":\"x\"}".into()), Some(Ok("x".into())));
    assert_eq!(Attacker::info().version, "0.2.0");
}
