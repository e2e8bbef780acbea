use gbhub_stress::error::SipError;
use gbhub_stress::num::{parse_i32, parse_u32, u64_to_string};
use gbhub_stress::text::{chars_of, lines_exec, split_exec, trim_range, words_exec, CharClass};

fn strs(v: Vec<Vec<char>>) -> Vec<String> {
    v.into_iter().map(|c| c.into_iter().collect()).collect()
}

#[test]
fn splitting_like_str_split() {
    let s = chars_of("a,,b,");
    assert_eq!(strs(split_exec(&s, &[','])), vec!["a", "", "b", ""]);
    let s = chars_of("x\r\n\r\ny");
    assert_eq!(strs(split_exec(&s, &['\r', '\n'])), vec!["x", "", "y"]);
}

#[test]
fn lines_like_str_lines() {
    for text in ["a\r\nb\nc", "a\n", "", "\n\n", "x\r", "a\r\n\r\nb\r\n"] {
        let expected: Vec<String> = text.lines().map(|l| l.to_string()).collect();
        assert_eq!(strs(lines_exec(&chars_of(text))), expected, "{:?}", text);
    }
}

#[test]
fn words_like_split_whitespace() {
    for text in ["  m=video  1 RTP/AVP\t96 ", "", "   ", "one", "a\u{3000}b\u{85}c"] {
        let expected: Vec<String> = text.split_whitespace().map(|l| l.to_string()).collect();
        assert_eq!(strs(words_exec(&chars_of(text))), expected, "{:?}", text);
    }
}

#[test]
fn trimming_like_trim_matches() {
    let s = chars_of(" \"'x'\" ");
    let (a, b) = trim_range(&s, 0, s.len(), &CharClass::Whitespace);
    let (c, d) = trim_range(&s, a, b, &CharClass::Quotes);
    assert_eq!(s[c..d].iter().collect::<String>(), "x");
    let (e, f) = trim_range(&s, 0, s.len(), &CharClass::Just('"'));
    assert_eq!((e, f), (0, s.len()));
}

#[test]
fn integers_like_parse() {
    for text in ["0", "-1", "+7", "2147483647", "-2147483648", "2147483648", "-", "+", "", "1a", "--1", "007"] {
        let c = chars_of(text);
        assert_eq!(parse_i32(&c, 0, c.len()), text.parse::<i32>().ok(), "{:?}", text);
    }
    for text in ["0", "+7", "4294967295", "4294967296", "-0", "-1", "+", "", "12 "] {
        let c = chars_of(text);
        assert_eq!(parse_u32(&c, 0, c.len()), text.parse::<u32>().ok(), "{:?}", text);
    }
}

#[test]
fn numerals() {
    assert_eq!(u64_to_string(0), "0");
    assert_eq!(u64_to_string(1234567890), "1234567890");
    assert_eq!(u64_to_string(u64::MAX), u64::MAX.to_string());
}

#[test]
fn error_texts() {
    assert_eq!(SipError::EmptyMessage.message(), "empty message");
    assert_eq!(SipError::MissingHeader("Via".to_string()).message(), "Via missing");
    assert_eq!(SipError::NoConnectionLine.message(), "no c=");
    assert_eq!(SipError::NoAddress.message(), "no ip");
    assert_eq!(SipError::NoMediaLine.message(), "no m=");
    assert_eq!(SipError::InvalidMediaLine("m=x".to_string()).message(), "invalid m= line: m=x");
    assert_eq!(SipError::InvalidMediaPort.message(), "invalid media port");
    assert_eq!(SipError::MediaPortOutOfRange(-3).message(), "invalid media port value: -3");
    assert_eq!(SipError::MediaPortOutOfRange(70000).message(), "invalid media port value: 70000");
    assert_eq!(
        SipError::NoChallenge.message(),
        "no WWW-Authenticate info available, cannot authenticate"
    );
    assert_eq!(SipError::NoNonce.message(), "no nonce in WWW-Authenticate");
    assert_eq!(SipError::TcpUnsupported.message(), "TCP transport not supported in GBHub-Stress");
}

#[test]
fn written_numbers_read_back() {
    for n in [0u64, 9, 10, 65535, 2147483647, 4294967295] {
        let c = chars_of(&u64_to_string(n));
        assert_eq!(parse_u32(&c, 0, c.len()), Some(n as u32));
        if n <= i32::MAX as u64 {
            assert_eq!(parse_i32(&c, 0, c.len()), Some(n as i32));
        }
    }
}
