use rabbithole::compare::{rank_bools, rank_ints, rank_texts, Rank};
use rabbithole::model::resource::AttributeValue;
use rabbithole::text::{
    chars_of, glob_match, has_char, parse_bool, parse_i64, str_before, str_eq,
};

#[test]
fn characters_of_a_string() {
    assert_eq!(chars_of("héllo"), vec!['h', 'é', 'l', 'l', 'o']);
    assert_eq!(chars_of(""), Vec::<char>::new());
    assert!(has_char("a.b", '.'));
    assert!(!has_char("ab", '.'));
    assert!(str_eq("añb", "añb"));
    assert!(!str_eq("ab", "abc"));
    assert!(!str_eq("ab", "ac"));
}

#[test]
fn lexical_order() {
    assert!(str_before("", "a"));
    assert!(str_before("a", "b"));
    assert!(str_before("a", "ab"));
    assert!(str_before("ab", "b"));
    assert!(str_before("10", "9"));
    assert!(str_before("Z", "a"));
    assert!(str_before("z", "é"));
    assert!(!str_before("a", "a"));
    assert!(!str_before("b", "a"));
    assert!(!str_before("ab", "a"));
    assert!(!str_before("", ""));
    for (a, b) in [("abc", "abd"), ("", "x"), ("é", "z"), ("same", "same"), ("12", "123")] {
        assert_eq!(str_before(a, b), a < b);
        assert_eq!(str_before(b, a), b < a);
    }
}

#[test]
fn wildcards() {
    assert!(glob_match("12*", "123"));
    assert!(glob_match("12*", "12"));
    assert!(!glob_match("12*", "321"));
    assert!(glob_match("*", ""));
    assert!(glob_match("*", "anything"));
    assert!(glob_match("**", "x"));
    assert!(glob_match("*Foo*", "a Foo b"));
    assert!(glob_match("*Foo*", "Foo"));
    assert!(!glob_match("*Foo*", "foo"));
    assert!(glob_match("a*b*c", "aXbYc"));
    assert!(glob_match("a*b*c", "abc"));
    assert!(glob_match("a*b*c", "abcbc"));
    assert!(!glob_match("a*b*c", "abcb"));
    assert!(glob_match("", ""));
    assert!(!glob_match("", "a"));
    assert!(glob_match("abc", "abc"));
    assert!(!glob_match("abc", "abd"));
    assert!(!glob_match("abc", "ab"));
    assert!(!glob_match("ab", "abc"));
    assert!(glob_match("a?c", "a?c"));
    assert!(!glob_match("a?c", "abc"));
    assert!(glob_match("*a*a*a*a*a*b", "aaaaaaaaaaaaaaaaaaaaab"));
    assert!(!glob_match("*a*a*a*a*a*b", "aaaaaaaaaaaaaaaaaaaaaa"));
}

#[test]
fn integers() {
    assert_eq!(parse_i64("0"), Some(0));
    assert_eq!(parse_i64("-0"), Some(0));
    assert_eq!(parse_i64("42"), Some(42));
    assert_eq!(parse_i64("-42"), Some(-42));
    assert_eq!(parse_i64("007"), Some(7));
    assert_eq!(parse_i64("9223372036854775807"), Some(i64::MAX));
    assert_eq!(parse_i64("-9223372036854775808"), Some(i64::MIN));
    assert_eq!(parse_i64("9223372036854775808"), None);
    assert_eq!(parse_i64("-9223372036854775809"), None);
    assert_eq!(parse_i64("99999999999999999999999999"), None);
    assert_eq!(parse_i64("0000000000000000000000000009"), Some(9));
    for bad in ["", "-", "+1", "1.0", "1e3", " 1", "1 ", "--1", "1-", "a", "١"] {
        assert_eq!(parse_i64(bad), None, "{:?}", bad);
    }
}

#[test]
fn truth_values() {
    assert_eq!(parse_bool("true"), Some(true));
    assert_eq!(parse_bool("false"), Some(false));
    for bad in ["", "True", "FALSE", "1", "0", "yes", "true ", "tru", "falsey"] {
        assert_eq!(parse_bool(bad), None, "{:?}", bad);
    }
}

#[test]
fn ranks() {
    assert_eq!(rank_ints(1, 2), Rank::Before);
    assert_eq!(rank_ints(2, 2), Rank::Same);
    assert_eq!(rank_ints(3, 2), Rank::After);
    assert_eq!(rank_ints(i64::MIN, i64::MAX), Rank::Before);
    assert_eq!(rank_bools(false, true), Rank::Before);
    assert_eq!(rank_bools(true, true), Rank::Same);
    assert_eq!(rank_bools(true, false), Rank::After);
    assert_eq!(rank_texts("a", "b"), Rank::Before);
    assert_eq!(rank_texts("a", "a"), Rank::Same);
    assert_eq!(rank_texts("b", "a"), Rank::After);
    assert_eq!(Rank::Before.reverse(), Rank::After);
    assert_eq!(Rank::Same.reverse(), Rank::Same);
    assert_eq!(Rank::After.reverse(), Rank::Before);
}

#[test]
fn values_rank_by_type_and_then_by_value() {
    let ladder = [
        AttributeValue::Null,
        AttributeValue::Bool(false),
        AttributeValue::Bool(true),
        AttributeValue::Integer(-5),
        AttributeValue::Integer(7),
        AttributeValue::Text("".into()),
        AttributeValue::Text("7".into()),
        AttributeValue::Text("a".into()),
        AttributeValue::Other("[1]".into()),
    ];
    for (i, a) in ladder.iter().enumerate() {
        for (j, b) in ladder.iter().enumerate() {
            let expected = if i < j {
                Rank::Before
            } else if i == j {
                Rank::Same
            } else {
                Rank::After
            };
            assert_eq!(a.rank(b), expected, "{:?} {:?}", a, b);
        }
    }
    assert_eq!(
        AttributeValue::Other("[1]".into()).rank(&AttributeValue::Other("{}".into())),
        Rank::Same
    );
}

#[test]
fn values_against_text() {
    let seven = AttributeValue::Integer(7);
    assert_eq!(seven.equals("7"), Some(true));
    assert_eq!(seven.equals("07"), Some(true));
    assert_eq!(seven.equals("8"), Some(false));
    assert_eq!(seven.equals("7*"), None);
    assert_eq!(seven.rank_against("10"), Some(Rank::Before));
    assert_eq!(seven.rank_against("x"), None);
    assert_eq!(seven.eq_with_str("7", "age"), Ok(true));
    assert_eq!(seven.rank_with_str("7", "age"), Ok(Rank::Same));
    let e = seven.eq_with_str("seven", "age").unwrap_err();
    assert_eq!((e.subject.as_str(), e.detail.as_str()), ("age", "seven"));
    let e = seven.rank_with_str("seven", "age").unwrap_err();
    assert_eq!((e.subject.as_str(), e.detail.as_str()), ("age", "seven"));

    let text = AttributeValue::Text("7".into());
    assert_eq!(text.equals("7"), Some(true));
    assert_eq!(text.equals("07"), Some(false));
    assert_eq!(text.equals("*"), Some(true));
    assert_eq!(text.rank_against("10"), Some(Rank::After));

    let yes = AttributeValue::Bool(true);
    assert_eq!(yes.equals("true"), Some(true));
    assert_eq!(yes.equals("false"), Some(false));
    assert_eq!(yes.equals("1"), None);
    assert_eq!(yes.rank_against("false"), Some(Rank::After));

    assert_eq!(AttributeValue::Null.equals("null"), None);
    assert_eq!(AttributeValue::Null.rank_against(""), None);
    assert_eq!(AttributeValue::Other("[1]".into()).equals("[1]"), None);
}
