use regex::{Regex, RegexSet};
use source_map_parser::stack_transform::{lines, parse_stack_line};
use source_map_parser::text::{char_is_decimal_digit, char_is_space, trim};

struct Patterns {
    primary: RegexSet,
    strict: Vec<Regex>,
    loose: Regex,
}

fn patterns() -> Patterns {
    Patterns {
        primary: RegexSet::new([r"^at ", r"@.+:\d+:\d+$"]).unwrap(),
        strict: vec![
            Regex::new(r"^at\s+(?P<name>.+?)\s*\((?P<url>.+?):(?P<line>\d+):(?P<column>\d+)\)$")
                .unwrap(),
            Regex::new(r"^at\s+(?P<url>.+?):(?P<line>\d+):(?P<column>\d+)$").unwrap(),
            Regex::new(
                r"^(?:async\s+)?(?P<name>[^@]+?)@(?P<url>.+?):(?P<line>\d+):(?P<column>\d+)$",
            )
            .unwrap(),
            Regex::new(r"^@(?P<url>.+?):(?P<line>\d+):(?P<column>\d+)$").unwrap(),
        ],
        loose: Regex::new(
            r"at\s+(?P<name>.+?)?\s*\((?P<url>.+?):(?P<line>\d+):(?P<column>\d+)\)|at\s+(?P<url2>.+?):(?P<line2>\d+):(?P<column2>\d+)",
        )
        .unwrap(),
    }
}

type Frame = (String, u32, u32, String, String);

fn by_patterns(p: &Patterns, raw: &str) -> Option<Frame> {
    let trimmed = raw.trim();
    if trimmed.matches(':').count() < 2 {
        return None;
    }
    if p.primary.is_match(trimmed) {
        for re in p.strict.iter() {
            if let Some(caps) = re.captures(trimmed) {
                let name = caps.name("name").map(|m| m.as_str()).unwrap_or("");
                let file = caps.name("url").map(|m| m.as_str()).unwrap_or("");
                let line = caps.name("line").and_then(|m| m.as_str().parse::<u32>().ok()).unwrap_or(0);
                let column =
                    caps.name("column").and_then(|m| m.as_str().parse::<u32>().ok()).unwrap_or(0);
                return Some((name.to_string(), line, column, file.to_string(), trimmed.to_string()));
            }
        }
    }
    if let Some(caps) = p.loose.captures(trimmed) {
        let name = caps.name("name").map(|m| m.as_str()).unwrap_or("");
        let file = caps.name("url").or(caps.name("url2")).map(|m| m.as_str()).unwrap_or("");
        let line = caps
            .name("line")
            .or(caps.name("line2"))
            .and_then(|m| m.as_str().parse::<u32>().ok())
            .unwrap_or(0);
        let column = caps
            .name("column")
            .or(caps.name("column2"))
            .and_then(|m| m.as_str().parse::<u32>().ok())
            .unwrap_or(0);
        return Some((name.to_string(), line, column, file.to_string(), trimmed.to_string()));
    }
    None
}

fn by_library(raw: &str) -> Option<Frame> {
    parse_stack_line(raw).map(|s| {
        (
            s.name.to_string(),
            s.line,
            s.column,
            s.source_file.to_string(),
            s.original_raw.to_string(),
        )
    })
}

fn agree(p: &Patterns, raw: &str) {
    assert_eq!(by_library(raw), by_patterns(p, raw), "line {:?}", raw);
}

struct Dice(u64);

impl Dice {
    fn roll(&mut self, sides: usize) -> usize {
        self.0 = self.0.wrapping_mul(6364136223846793005).wrapping_add(1442695040888963407);
        ((self.0 >> 33) as usize) % sides
    }
}

const PIECES: [&str; 28] = [
    "at", "at ", " ", "  ", "\t", "\n", "(", ")", ":", ":1", ":22", "@", "async", "async ", "a", "t",
    "foo", "u", "http://h/p.js", "1", "05", "9999999999", "\u{0663}", "\u{a0}", "\r", ".", "<x>", "))",
];

const ENDS: [&str; 8] = [":1:2)", ":1:2", ":30:4", ":5:67)", ":1:2) ", ":8:9))", ":1:2:3", ":0:0)"];

fn random_line(dice: &mut Dice) -> String {
    let count = 1 + dice.roll(9);
    let mut line = String::new();
    for _ in 0..count {
        line.push_str(PIECES[dice.roll(PIECES.len())]);
    }
    if dice.roll(2) == 0 {
        line.push_str(ENDS[dice.roll(ENDS.len())]);
    }
    line
}

fn random_lines_agree(seed: u64, count: usize) {
    let p = patterns();
    let mut dice = Dice(seed);
    let mut frames = 0;
    for _ in 0..count {
        let line = random_line(&mut dice);
        if by_patterns(&p, &line).is_some() {
            frames += 1;
        }
        agree(&p, &line);
    }
    assert!(frames > count / 20, "too few frames among the lines: {}", frames);
}

#[test]
fn random_lines_first_seed() {
    random_lines_agree(1, 150000);
}

#[test]
fn random_lines_second_seed() {
    random_lines_agree(0x9e3779b97f4a7c15, 150000);
}

#[test]
fn random_lines_third_seed() {
    random_lines_agree(0xdeadbeefcafef00d, 150000);
}

#[test]
fn random_frame_like_lines() {
    let p = patterns();
    let mut dice = Dice(7);
    let heads = ["at ", "at  ", "at\t", "at \n", "async ", "async  ", "", "@", "x at ", "at", "at ("];
    let names = ["foo", "foo bar", "(", "a (b)", "", " ", "new Foo", "f@g", "\n", "at x"];
    let joins = [" (", "(", "  (", "@", " ", "", "\n("];
    let urls = ["u", "http://h:80/p.js", "a:1:2", "(u", "u)", "", "a\nb", "@x", " "];
    let tails = [":1:2)", ":1:2", ":10:20) ", ":1:2))", ":1:", "::2)", ":1:2)x", ":1:2:3", ":4294967296:0)"];
    for _ in 0..60000 {
        let line = format!(
            "{}{}{}{}{}",
            heads[dice.roll(heads.len())],
            names[dice.roll(names.len())],
            joins[dice.roll(joins.len())],
            urls[dice.roll(urls.len())],
            tails[dice.roll(tails.len())]
        );
        agree(&p, &line);
    }
}

#[test]
fn awkward_lines_agree() {
    let p = patterns();
    let corpus = [
        "at  (u:1:2)",
        "at \n(u:1:2)",
        "at  (a (u:1:2)",
        "at (a) (u:1:2)",
        "at  :1:2",
        "at \n:1:2",
        "at :1:2",
        "at u:1:2",
        "at u:1:2)",
        "at foo (u:1:2",
        "at foo (:1:2)",
        "at foo(u:1:2)",
        "at foo\n(u:1:2)",
        "at foo (u\nv:1:2)",
        "at fo\no (u:1:2)",
        "async @u:1:2",
        "async  @u:1:2",
        "async\n@u:1:2",
        "async f@u:1:2",
        "asyncf@u:1:2",
        "async async@u:1:2",
        "a@b@c:1:2",
        "@@u:1:2",
        "@:1:2",
        "f@:1:2",
        "f@u:1:2 ",
        "f@u:1:2:3",
        "f@u:1:2:",
        "f@u::1:2",
        "format (u:1:2)",
        "format  u:1:2",
        "that at at (u:1:2) at x:3:4",
        "at at u:1:2",
        "at\u{a0}foo (u:1:2)",
        "at\u{3000}u:1:2",
        "at foo (u:\u{0661}:\u{0662})",
        "at foo (u:1\u{0661}:2)",
        "at foo (u:00000000001:4294967295)",
        "at foo (u:4294967296:1)",
        "at (u:1:2)",
        "at ((u:1:2)",
        "at x ((u:1:2))",
        "at x (u:1:2) (v:3:4)",
        "at x (u:1:2)(v:3:4)",
        "at x (u:1:2):5:6",
        "at x (u:1:2):5:6)",
        "prefix: at x (u:1:2)",
        "::",
        ":1:2",
        "at:1:2",
        "at :1:2:3",
        "  at foo (u:1:2)  ",
        "\tat u:1:2\r",
        "at foo (u:1:2)\nat bar (v:3:4)",
        "café at naïve (ü:1:2)",
        "at 名前 (ファイル.js:12:34)",
    ];
    for line in corpus {
        agree(&p, line);
    }
}

#[test]
fn character_classes_agree() {
    let space = Regex::new(r"^\s$").unwrap();
    let digit = Regex::new(r"^\d$").unwrap();
    let mut buffer = [0u8; 4];
    let mut spaces = 0;
    let mut digits = 0;
    for code in 0..=0x10ffffu32 {
        if let Some(c) = char::from_u32(code) {
            let text: &str = c.encode_utf8(&mut buffer);
            assert_eq!(char_is_space(c), space.is_match(text), "space {:x}", code);
            assert_eq!(char_is_space(c), c.is_whitespace(), "white space {:x}", code);
            assert_eq!(char_is_decimal_digit(c), digit.is_match(text), "digit {:x}", code);
            if char_is_space(c) {
                spaces += 1;
            }
            if char_is_decimal_digit(c) {
                digits += 1;
            }
        }
    }
    assert_eq!(spaces, 25);
    assert_eq!(digits, 760);
}

#[test]
fn trim_agrees_with_std() {
    let corpus = [
        "",
        " ",
        "  \t\n",
        "a",
        " a",
        "a ",
        "  a b  ",
        "\u{a0}x\u{3000}",
        "\u{2028}\u{2029}y\u{85}",
        "\r\nz\r\n",
        "\u{200b}w\u{200b}",
        "é ",
    ];
    for text in corpus {
        assert_eq!(trim(text), text.trim(), "text {:?}", text);
    }
}

#[test]
fn lines_agree_with_std() {
    let corpus = [
        "",
        "\n",
        "\r\n",
        "a",
        "a\n",
        "a\r\n",
        "a\r",
        "a\nb",
        "a\n\nb\n",
        "foo\nbar\n\r\nbaz\r",
        "\r\r\n",
        "x\r\ny\rz\n\n",
        "é\nü\r\n",
    ];
    for text in corpus {
        let std_lines: Vec<&str> = text.lines().collect();
        assert_eq!(lines(text), std_lines, "text {:?}", text);
    }
}

const LETTERS: [char; 10] = ['a', 't', ' ', '(', ')', ':', '1', '@', '\n', 's'];

/// Every line of up to `length` letters that starts with the letter `first`.
fn short_lines_agree(first: usize, length: usize) {
    let p = patterns();
    let mut digits = vec![0usize; length];
    for used in 1..=length {
        for d in digits.iter_mut() {
            *d = 0;
        }
        digits[0] = first;
        loop {
            let line: String = digits[..used].iter().map(|&d| LETTERS[d]).collect();
            agree(&p, &line);
            let mut k = used;
            while k > 1 {
                k -= 1;
                digits[k] += 1;
                if digits[k] < LETTERS.len() {
                    break;
                }
                digits[k] = 0;
                if k == 1 {
                    k = 0;
                }
            }
            if k == 0 || used == 1 {
                break;
            }
        }
    }
}

#[test]
fn short_lines_from_a() {
    short_lines_agree(0, 7);
}

#[test]
fn short_lines_from_t() {
    short_lines_agree(1, 7);
}

#[test]
fn short_lines_from_space() {
    short_lines_agree(2, 7);
}

#[test]
fn short_lines_from_paren() {
    short_lines_agree(3, 7);
}

#[test]
fn short_lines_from_colon() {
    short_lines_agree(5, 7);
}

#[test]
fn short_lines_from_digit() {
    short_lines_agree(6, 7);
}

#[test]
fn short_lines_from_at_sign() {
    short_lines_agree(7, 7);
}

#[test]
fn short_lines_from_s() {
    short_lines_agree(9, 7);
}

#[test]
fn short_lines_after_async() {
    let p = patterns();
    let letters = [' ', '\n', '@', ':', '1', 'x', 'a'];
    for head in ["async", "async ", "async@", "asyncx", " async "] {
        for length in 0..=6u32 {
            for code in 0..letters.len().pow(length) {
                let mut line = String::from(head);
                let mut rest = code;
                for _ in 0..length {
                    line.push(letters[rest % letters.len()]);
                    rest /= letters.len();
                }
                agree(&p, &line);
            }
        }
    }
}

#[test]
fn short_lines_before_numbers() {
    let p = patterns();
    let letters = ['a', 't', ' ', '(', ')', '@', '\n', ':', '1'];
    for tail in [":1:2)", ":1:2", "u:1:2)", "u:1:2"] {
        for length in 0..=6u32 {
            for code in 0..letters.len().pow(length) {
                let mut line = String::new();
                let mut rest = code;
                for _ in 0..length {
                    line.push(letters[rest % letters.len()]);
                    rest /= letters.len();
                }
                line.push_str(tail);
                agree(&p, &line);
            }
        }
    }
}
