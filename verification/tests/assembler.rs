use numbering::number_assembler::{is_valid_format, NumberAssembler};
use numbering::prefix_rule::PrefixRule;

fn rule(key: &str, format: &str, seq_length: u32) -> PrefixRule {
    PrefixRule {
        prefix_key: key.to_string(),
        format: format.to_string(),
        seq_length,
        initial_seq: 1,
        network_partition: false,
    }
}

#[test]
fn test_assemble_number() {
    let assembler = NumberAssembler::new();
    let prefix = "TEST";
    let prefix_rule = rule("TEST", "TEST-{year}-{SEQ:4}", 4);
    let sequence = 123;

    let assembled_number = assembler.assemble_number(prefix, &prefix_rule, sequence).unwrap();
    let expected_number = format!("TEST-{}-0123", chrono::Utc::now().format("%Y"));

    assert_eq!(assembled_number, expected_number);
}

#[test]
fn test_assemble_number_with_prefix_only() {
    let assembler = NumberAssembler::new();
    let prefix = "ORDER";
    let prefix_rule = rule("ORDER", "{prefix}-{SEQ:6}", 6);
    let sequence = 456;

    let assembled_number = assembler.assemble_number(prefix, &prefix_rule, sequence).unwrap();
    assert_eq!(assembled_number, "ORDER-000456");
}

#[test]
fn fixture_year_and_sequence() {
    let assembler = NumberAssembler::new();
    let r = rule("TEST", "TEST-{year}-{SEQ:4}", 4);
    assert_eq!(assembler.assemble_number_in_year("TEST", &r, 123, 2025).unwrap(), "TEST-2025-0123");
}

#[test]
fn fixture_wider_than_width_is_not_truncated() {
    let assembler = NumberAssembler::new();
    let r = rule("ORDER", "{prefix}-{SEQ:4}", 4);
    assert_eq!(assembler.assemble_number_in_year("ORDER", &r, 12345, 2025).unwrap(), "ORDER-12345");
}

#[test]
fn validity_needs_a_sequence_placeholder() {
    assert!(is_valid_format("TEST-{year}-{SEQ:4}", 4));
    assert!(is_valid_format("{SEQ}", 1));
    assert!(!is_valid_format("INVALID", 4));
    assert!(!is_valid_format("{SEQ}", 0));
    assert!(!is_valid_format("{SEQ:99999999999}", 4));
}

#[test]
fn unknown_placeholders_pass_through() {
    let assembler = NumberAssembler::new();
    let r = rule("A", "{region}-{SEQ:3}-{prefix:9}-{}", 3);
    assert_eq!(assembler.assemble_number_in_year("A", &r, 7, 2025).unwrap(), "{region}-007-A-{}");
}

#[test]
fn default_width_comes_from_the_rule() {
    let assembler = NumberAssembler::new();
    let r = rule("INV", "{prefix}{SEQ}", 5);
    assert_eq!(assembler.assemble_number_in_year("INV", &r, 42, 2025).unwrap(), "INV00042");
    let zero = rule("INV", "{SEQ:0}", 5);
    assert_eq!(assembler.assemble_number_in_year("INV", &zero, 0, 2025).unwrap(), "0");
}

#[test]
fn year_has_at_least_four_digits() {
    let assembler = NumberAssembler::new();
    let r = rule("Y", "{year}/{SEQ:1}", 1);
    assert_eq!(assembler.assemble_number_in_year("Y", &r, 1, 987).unwrap(), "0987/1");
    assert_eq!(assembler.assemble_number_in_year("Y", &r, 1, 12345).unwrap(), "12345/1");
    assert_eq!(assembler.assemble_number_in_year("Y", &r, 1, -44).unwrap(), "-0044/1");
}

#[test]
fn largest_sequence_value_is_rendered_whole() {
    let assembler = NumberAssembler::new();
    let r = rule("M", "{SEQ:4}", 4);
    assert_eq!(
        assembler.assemble_number_in_year("M", &r, u64::MAX, 2025).unwrap(),
        "18446744073709551615"
    );
}

#[test]
fn blocked_rule_appends_the_marker() {
    let assembler = NumberAssembler::new();
    let mut r = rule("TEST", "TEST-{year}-{SEQ:4}", 4);
    r.network_partition = true;
    assert_eq!(
        assembler.assemble_number_in_year("TEST", &r, 1, 2025).unwrap(),
        "TEST-2025-0001-NP"
    );
}

#[test]
fn malformed_template_is_an_error() {
    let assembler = NumberAssembler::new();
    let r = rule("T", "T-{SEQ}", 0);
    assert_eq!(
        assembler.assemble_number_in_year("T", &r, 1, 2025),
        Err("sequence placeholder without a usable width".to_string())
    );
    let wide = rule("T", "T-{SEQ:4294967296}", 4);
    assert!(assembler.assemble_number("T", &wide, 1).is_err());
    let widest = rule("T", "T-{SEQ:00000000000000000007}", 4);
    assert_eq!(assembler.assemble_number_in_year("T", &widest, 1, 2025).unwrap(), "T-0000001");
}

#[test]
fn assembly_is_repeatable() {
    let assembler = NumberAssembler::new();
    let r = rule("R", "{prefix}/{year}/{SEQ:8}", 8);
    let first = assembler.assemble_number_in_year("R", &r, 99, 2031);
    let second = assembler.assemble_number_in_year("R", &r, 99, 2031);
    assert_eq!(first, second);
    assert_eq!(first.unwrap(), "R/2031/00000099");
}

#[test]
fn braces_that_form_no_placeholder_are_literal() {
    let assembler = NumberAssembler::new();
    let r = rule("B", "{{SEQ:2}}{SEQ:}{SEQ:x}{SEQ{:2}{S E Q}{SEQ:2", 2);
    assert_eq!(
        assembler.assemble_number_in_year("B", &r, 5, 2025).unwrap(),
        "{05}{SEQ:}{SEQ:x}{SEQ{:2}{S E Q}{SEQ:2"
    );
    assert!(!is_valid_format("{SEQ:}{SEQ:x}{S E Q}{SEQ:2", 2));
}

#[test]
fn sequence_placeholders_agree_with_the_pattern() {
    let pattern = regex::Regex::new(r"\{SEQ(:[0-9]{1,9})?\}").unwrap();
    let templates = [
        "TEST-{year}-{SEQ:4}",
        "{prefix}-{SEQ:6}",
        "INVALID",
        "{SEQ}",
        "{seq:4}",
        "{SEQ:}",
        "{ SEQ:4}",
        "x{SEQ:12}y{SEQ}z",
        "{SEQ:4",
        "SEQ:4}",
        "{{SEQ:4}}",
        "",
    ];
    for template in templates {
        assert_eq!(is_valid_format(template, 3), pattern.is_match(template), "{}", template);
    }
}

fn scanned_placeholders(template: &str) -> Vec<(usize, usize)> {
    let chars: Vec<char> = template.chars().collect();
    let mut found = Vec::new();
    let mut i = 0;
    while i < chars.len() {
        let (token, next) = numbering::number_assembler::scan_token(&chars, i);
        if !matches!(token, numbering::number_assembler::Token::Literal(_)) {
            found.push((i, next));
        }
        i = next;
    }
    found
}

#[test]
fn recognized_placeholders_are_those_of_the_pattern() {
    let pattern = regex::Regex::new(r"\{([A-Za-z0-9_]+)(?::(\d+))?\}").unwrap();
    let templates = [
        "TEST-{year}-{SEQ:4}",
        "{prefix}-{SEQ:6}",
        "{prefix}{year}{SEQ}{other}{SEQ:12}{year:2}{prefix:0}",
        "{{SEQ:4}}{SEQ:4{SEQ}}",
        "{SEQ:4:5}{SEQ::4}{:4}{}{SEQ:}{SEQ :4}",
        "{seq}{Seq:1}{SEQ_}{_SEQ}{SEQ1}{year_}",
        "no placeholders at all",
        "{SEQ:99999999999999999999}",
        "}{SEQ:1}{",
    ];
    for template in templates {
        let expected: Vec<(usize, usize)> = pattern
            .captures_iter(template)
            .filter(|c| ["prefix", "year", "SEQ"].contains(&c.get(1).unwrap().as_str()))
            .map(|c| (c.get(0).unwrap().start(), c.get(0).unwrap().end()))
            .collect();
        assert_eq!(scanned_placeholders(template), expected, "{}", template);
    }
}

#[test]
fn characters_beyond_ascii_are_kept() {
    let assembler = NumberAssembler::new();
    let r = rule("é", "№{prefix}–{SEQ:3}€", 3);
    assert_eq!(assembler.assemble_number_in_year("é", &r, 5, 2025).unwrap(), "№é–005€");
}
