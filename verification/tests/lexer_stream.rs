use maths::lexer::{Lexer, NumberKind, TextSpan, Token, TokenKind};

fn take_number(src: &str) -> (f64, NumberKind) {
    let mut lex = Lexer::new(src);
    match lex.next().unwrap().kind {
        TokenKind::Number { neg, kind, text } => {
            let radix = match kind {
                NumberKind::Dec => 10,
                NumberKind::Hex => 16,
                NumberKind::Bin => 2,
            };
            let v = match kind {
                NumberKind::Dec => text.parse::<f64>().unwrap(),
                _ => {
                    if let Some((whole, frac)) = text.split_once('.') {
                        let num = u64::from_str_radix(whole, radix).unwrap() as f64;
                        let mut frac = u64::from_str_radix(frac, radix).unwrap() as f64;
                        while frac >= 1.0 {
                            frac /= radix as f64;
                        }
                        num + frac
                    } else {
                        u64::from_str_radix(&text, radix).unwrap() as f64
                    }
                }
            };
            (if neg { -v } else { v }, kind)
        }
        other => panic!("expected a number token, found {:?}", other),
    }
}

#[test]
pub fn test_take_number() {
    assert_eq!(take_number("123"), (123.0, NumberKind::Dec));
    assert_eq!(take_number("123.5123"), (123.5123, NumberKind::Dec));
    assert_eq!(take_number("0x123"), (0x123 as f64, NumberKind::Hex));
    assert_eq!(take_number("0b101"), (0b101 as f64, NumberKind::Bin));
}

#[test]
pub fn test_tokeniser() {
    let s = "1 12 0 0x3 let x **";
    let mut lex = Lexer::new(s);

    let expected = vec![
        Token {
            kind: TokenKind::Number {
                neg: false,
                kind: NumberKind::Dec,
                text: "1".to_string(),
            },
            span: TextSpan::new(0, 1),
        },
        Token {
            kind: TokenKind::Number {
                neg: false,
                kind: NumberKind::Dec,
                text: "12".to_string(),
            },
            span: TextSpan::new(2, 4),
        },
        Token {
            kind: TokenKind::Number {
                neg: false,
                kind: NumberKind::Dec,
                text: "0".to_string(),
            },
            span: TextSpan::new(5, 6),
        },
        Token {
            kind: TokenKind::Number {
                neg: false,
                kind: NumberKind::Hex,
                text: "3".to_string(),
            },
            span: TextSpan::new(7, 10),
        },
        Token {
            kind: TokenKind::Let,
            span: TextSpan::new(11, 14),
        },
        Token {
            kind: TokenKind::Ident("x".to_string()),
            span: TextSpan::new(15, 16),
        },
        Token {
            kind: TokenKind::Exponent,
            span: TextSpan::new(17, 19),
        },
        Token {
            kind: TokenKind::Eof,
            span: TextSpan::new(19, 20),
        },
    ];

    assert_eq!(lex.tokens(), expected);
}
