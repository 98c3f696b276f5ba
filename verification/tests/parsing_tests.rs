use std::collections::HashMap;
use std::collections::HashSet;

use basset_hound::listing::{parse_proc_list, parse_ps_listing, pid_max_from_content, pids_from_entry_names};
use basset_hound::text::{chars_of, line_ranges, parse_pid, trim_str, word_ranges};

fn range_strings(chars: &[char], ranges: &[(usize, usize)]) -> Vec<String> {
    ranges.iter().map(|&(a, b)| chars[a..b].iter().collect()).collect()
}

const SAMPLES: &[&str] = &[
    "",
    "\n",
    "a",
    "a\n",
    "a\r\nb",
    "a\r\nb\r\n",
    "a\rb\n\nc\r",
    "\n\nx\n",
    "  two  words \t here\u{2003}too\u{a0}",
    "\u{85}lead and trail\u{3000}",
    "1\tinit\n2\tkthreadd\n",
];

#[test]
fn test_line_ranges_match_str_lines() {
    for s in SAMPLES {
        let chars = chars_of(s);
        let got = range_strings(&chars, &line_ranges(&chars));
        let expected: Vec<String> = s.lines().map(|l| l.to_string()).collect();
        assert_eq!(got, expected, "lines of {:?}", s);
    }
}

#[test]
fn test_word_ranges_match_split_whitespace() {
    for s in SAMPLES {
        let chars = chars_of(s);
        let got = range_strings(&chars, &word_ranges(&chars, 0, chars.len()));
        let expected: Vec<String> = s.split_whitespace().map(|w| w.to_string()).collect();
        assert_eq!(got, expected, "words of {:?}", s);
    }
}

#[test]
fn test_trim_matches_str_trim() {
    for s in SAMPLES {
        assert_eq!(trim_str(s), s.trim(), "trim of {:?}", s);
    }
    assert_eq!(trim_str(" \t32768\n"), "32768");
}

#[test]
fn test_parse_pid_matches_str_parse() {
    let inputs = [
        "0", "1", "-1", "+5", "007", "-0", "2147483647", "2147483648", "-2147483648",
        "-2147483649", "99999999999999999999", "", "-", "+", "12a", " 12", "12 ", "1.5",
        "٣", "+-1", "--1", "4194304",
    ];
    for s in inputs {
        assert_eq!(parse_pid(s), s.parse::<i32>().ok(), "parse of {:?}", s);
    }
}

#[test]
fn test_parse_proc_list_tab_lines() {
    let mut table: HashMap<i32, String> = HashMap::new();
    table.insert(5, "old".to_string());
    parse_proc_list("1\tsystemd\n42\tbash\twith tab\nnot a line\n5\tnew\r\n-7\tneg\n\tnopid\n8\n", &mut table);
    let mut expected: HashMap<i32, String> = HashMap::new();
    expected.insert(1, "systemd".to_string());
    expected.insert(42, "bash\twith tab".to_string());
    expected.insert(5, "new".to_string());
    expected.insert(-7, "neg".to_string());
    assert_eq!(table, expected);
}

#[test]
fn test_parse_proc_list_later_line_wins() {
    let mut table: HashMap<i32, String> = HashMap::new();
    parse_proc_list("9\tfirst\n9\tsecond", &mut table);
    assert_eq!(table.len(), 1);
    assert_eq!(table[&9], "second");
}

#[test]
fn test_parse_ps_listing_skips_header_and_joins_words() {
    let text = "    PID COMMAND\n      1 systemd\n    812 Web   Content\n  abc def\n  900\n   77  x\n";
    let table = parse_ps_listing(text);
    let mut expected: HashMap<i32, String> = HashMap::new();
    expected.insert(1, "systemd".to_string());
    expected.insert(812, "Web Content".to_string());
    expected.insert(77, "x".to_string());
    assert_eq!(table, expected);
}

#[test]
fn test_parse_ps_listing_empty_output() {
    assert!(parse_ps_listing("").is_empty());
    assert!(parse_ps_listing("  PID COMMAND\n").is_empty());
}

#[test]
fn test_pids_from_entry_names() {
    let names: Vec<String> = ["1", "self", "42", "sys", "+7", "-3", "4294967296"]
        .iter()
        .map(|s| s.to_string())
        .collect();
    let pids = pids_from_entry_names(&names);
    let expected: HashSet<i32> = [1, 42, 7, -3].into_iter().collect();
    assert_eq!(pids, expected);
}

#[test]
fn test_pid_max_from_content() {
    assert_eq!(pid_max_from_content(Some("4194304\n")), 4194304);
    assert_eq!(pid_max_from_content(Some("  100 ")), 100);
    assert_eq!(pid_max_from_content(Some("lots")), 32768);
    assert_eq!(pid_max_from_content(Some("")), 32768);
    assert_eq!(pid_max_from_content(None), 32768);
}

#[test]
fn test_parse_proc_list_of_joined_texts() {
    let pairs = [("1\tinit", "2\tsshd\n"), ("", "3\tx"), ("4\ta\n", "4\tb"), ("5\tq\n\n", "")];
    for (a, b) in pairs {
        let mut one_by_one: HashMap<i32, String> = HashMap::new();
        parse_proc_list(a, &mut one_by_one);
        parse_proc_list(b, &mut one_by_one);
        let mut joined: HashMap<i32, String> = HashMap::new();
        parse_proc_list(&format!("{}\n{}", a, b), &mut joined);
        assert_eq!(joined, one_by_one, "joining {:?} and {:?}", a, b);
    }
}

#[test]
fn test_parse_proc_list_twice_changes_nothing() {
    let text = "1\tinit\n7\tfirst\n7\tsecond\nnoise\n12\tworker\r\n";
    let mut once: HashMap<i32, String> = HashMap::new();
    once.insert(7, "stale".to_string());
    once.insert(99, "kept".to_string());
    parse_proc_list(text, &mut once);
    let mut twice = once.clone();
    parse_proc_list(text, &mut twice);
    assert_eq!(twice, once);
    assert_eq!(once[&7], "second");
    assert_eq!(once[&99], "kept");
}
