use zep_clockify::csv_parser::{CSVParser, ReaderResult};

/// A tokenizer over lines that are split beforehand, written without regard
/// to speed, to compare the library's against.
struct Lines {
    lines: Vec<Vec<char>>,
    next: usize,
    line: Vec<char>,
    cursor: usize,
}

impl Lines {
    fn new(text: &str) -> Lines {
        let mut lines: Vec<Vec<char>> = text.split('\n').map(|l| l.chars().collect()).collect();
        if text.is_empty() || text.ends_with('\n') {
            lines.pop();
        }
        Lines { lines, next: 0, line: Vec::new(), cursor: 0 }
    }

    fn load(&mut self) -> bool {
        self.cursor = 0;
        if self.next == self.lines.len() {
            self.line = Vec::new();
            return false;
        }
        self.line = self.lines[self.next].clone();
        self.next += 1;
        true
    }

    fn token(&mut self) -> Option<(String, bool)> {
        if self.cursor == self.line.len() && !self.load() {
            return None;
        }
        let rest: Vec<char> = self.line[self.cursor..].to_vec();
        if rest.first() == Some(&'"') {
            self.cursor += 1;
            let mut value = String::new();
            loop {
                let rest: Vec<char> = self.line[self.cursor..].to_vec();
                if let Some(q) = rest.iter().position(|c| *c == '"') {
                    value.extend(rest[..q].iter());
                    let behind = &rest[q + 1..];
                    return match behind.iter().position(|c| *c == ';') {
                        Some(s) => {
                            self.cursor += q + 1 + s + 1;
                            Some((value, true))
                        }
                        None => {
                            self.cursor = self.line.len();
                            Some((value, false))
                        }
                    };
                }
                value.extend(rest.iter());
                value.push('\n');
                if !self.load() {
                    return None;
                }
            }
        }
        if rest.first() == Some(&';') {
            self.cursor += 1;
            return Some((String::new(), self.cursor < self.line.len()));
        }
        match rest.iter().position(|c| *c == ';') {
            Some(s) => {
                self.cursor += s + 1;
                Some((rest[..s].iter().collect(), true))
            }
            None => {
                self.cursor = self.line.len();
                Some((rest.iter().collect(), false))
            }
        }
    }
}

fn texts() -> Vec<String> {
    let alphabet = ['a', 'b', ';', ';', '"', '\n', '\n', ' '];
    let mut state: u64 = 0x2545F4914F6CDD1D;
    let mut out = Vec::new();
    for round in 0..3000 {
        let mut text = String::new();
        let len = round % 24;
        for _ in 0..len {
            state ^= state << 13;
            state ^= state >> 7;
            state ^= state << 17;
            text.push(alphabet[(state % alphabet.len() as u64) as usize]);
        }
        out.push(text);
    }
    out
}

#[test]
fn tokens_of_arbitrary_texts() {
    for text in texts() {
        let mut parser = CSVParser::new(&text);
        let mut lines = Lines::new(&text);
        for _ in 0..40 {
            let got = match parser.read_token() {
                ReaderResult::Data(t) => Some((t.value, t.further_tokens)),
                ReaderResult::Eof => None,
            };
            assert_eq!(got, lines.token(), "in {:?}", text);
        }
    }
}

#[test]
fn no_token_invents_or_loses_characters() {
    // Apart from quotes, separators and what stands behind a closing quote,
    // every character of a text without quotes turns up in a token.
    for text in texts() {
        if text.contains('"') {
            continue;
        }
        let mut parser = CSVParser::new(&text);
        let mut seen = String::new();
        while let ReaderResult::Data(t) = parser.read_token() {
            seen.push_str(&t.value);
        }
        let kept: String = text.chars().filter(|c| *c != ';' && *c != '\n').collect();
        assert_eq!(seen, kept, "in {:?}", text);
    }
}
