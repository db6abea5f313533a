use http_server::headers::parse_header_line;
use http_server::rate_limiter::RateLimiter;
use http_server::request::parse_request_line;
use http_server::request::Rejection;
use http_server::text::split;
use http_server::text::split_once;
use http_server::text::split_whitespace;
use http_server::url::parse_query_params;
use std::collections::HashMap;

struct Lcg(u64);

impl Lcg {
    fn next(&mut self) -> u64 {
        self.0 = self.0.wrapping_mul(6364136223846793005).wrapping_add(1442695040888963407);
        self.0 >> 33
    }

    fn below(&mut self, bound: u64) -> u64 {
        self.next() % bound
    }

    fn text(&mut self, alphabet: &[char], max_len: u64) -> String {
        let len = self.below(max_len + 1);
        let mut out = String::new();
        for _ in 0..len {
            out.push(alphabet[self.below(alphabet.len() as u64) as usize]);
        }
        out
    }
}

const ALPHABET: [char; 14] =
    ['a', 'b', 'G', ' ', ' ', '\t', '\r', '\n', ':', '=', '&', '?', '\u{a0}', '\u{e9}'];

#[test]
fn generated_texts_split_as_std_splits_them() {
    let mut random = Lcg(1);
    for _ in 0..3000 {
        let text = random.text(&ALPHABET, 12);
        let words: Vec<String> = text.split_whitespace().map(String::from).collect();
        assert_eq!(split_whitespace(&text), words, "{:?}", text);
        let parts: Vec<String> = text.split('&').map(String::from).collect();
        assert_eq!(split(&text, '&'), parts, "{:?}", text);
        let cut = text.split_once('?').map(|(a, b)| (a.to_string(), b.to_string()));
        assert_eq!(split_once(&text, '?'), cut, "{:?}", text);
    }
}

#[test]
fn generated_header_lines_are_read_as_std_reads_them() {
    let mut random = Lcg(2);
    for _ in 0..3000 {
        let text = random.text(&ALPHABET, 10);
        let field = text.trim().split_once(": ").map(|(a, b)| (a.to_string(), b.to_string()));
        assert_eq!(parse_header_line(&text), field, "{:?}", text);
    }
}

#[test]
fn generated_queries_give_the_same_map() {
    let mut random = Lcg(3);
    let alphabet = ['a', 'b', 'c', '=', '=', '&', '&', '1'];
    for _ in 0..3000 {
        let query = random.text(&alphabet, 14);
        let mut expected: HashMap<String, String> = HashMap::new();
        for pair in query.split('&') {
            let mut parts = pair.splitn(2, '=');
            if let (Some(key), Some(value)) = (parts.next(), parts.next()) {
                expected.insert(key.to_string(), value.to_string());
            }
        }
        let params = parse_query_params(&query);
        assert_eq!(params.len(), expected.len(), "{:?}", query);
        for (key, value) in &expected {
            assert_eq!(params.get(key), Some(value), "{:?}", query);
        }
    }
}

#[test]
fn generated_request_lines_are_judged_by_their_tokens() {
    let mut random = Lcg(4);
    let alphabet = ['G', 'E', 'T', '/', ' ', ' ', '\t', '\r', '\n', 'x'];
    for _ in 0..3000 {
        let mut text = random.text(&alphabet, 8);
        if random.below(2) == 0 {
            text.push_str(" HTTP/1.1\r\n");
        }
        let words: Vec<&str> = text.split_whitespace().collect();
        match parse_request_line(&text) {
            Ok(line) => {
                assert_eq!(words.len(), 3, "{:?}", text);
                assert_eq!(line.method, words[0]);
                assert_eq!(line.target, words[1]);
                assert_eq!(line.version, "HTTP/1.1");
                assert_eq!(words[2], "HTTP/1.1");
            }
            Err(Rejection::MalformedRequestLine) => assert_ne!(words.len(), 3, "{:?}", text),
            Err(Rejection::UnsupportedVersion) => {
                assert_eq!(words.len(), 3, "{:?}", text);
                assert_ne!(words[2], "HTTP/1.1");
            }
            Err(other) => panic!("unexpected {:?} for {:?}", other, text),
        }
    }
}

#[test]
fn generated_traffic_is_limited_as_a_plain_window_limits_it() {
    let mut random = Lcg(5);
    for round in 0..200 {
        let max_requests = random.below(4) as usize;
        let window = random.below(6) as u128;
        let mut limiter = RateLimiter::new(max_requests, window);
        let mut logs: HashMap<String, Vec<u128>> = HashMap::new();
        let mut now: u128 = 0;
        for _ in 0..60 {
            now += random.below(4) as u128;
            let identity = format!("client-{}", random.below(3));
            let log = logs.entry(identity.clone()).or_insert_with(Vec::new);
            log.retain(|&then| now - then < window);
            let expected = log.len() >= max_requests;
            if !expected {
                log.push(now);
            }
            let before = limiter.recorded(&identity).len();
            assert_eq!(limiter.check_and_record(&identity, now), expected, "round {}", round);
            assert_eq!(&limiter.recorded(&identity), &*log, "round {}", round);
            assert!(limiter.recorded(&identity).len() <= max_requests);
            if expected {
                assert_eq!(limiter.recorded(&identity).len(), before);
            }
        }
    }
}
