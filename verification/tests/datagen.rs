use blaster::datagen::{
    generate_payload, generate_payloads, number_payloads, parse_sizes, requested_names,
    select_sizes, SIZES, WARMUP_SEQUENCE_ID,
};

#[test]
fn default_list_selects_every_size() {
    assert_eq!(parse_sizes("1kb,10kb,100kb,1mb,10mb"), SIZES.to_vec());
}

#[test]
fn sizes_come_in_the_order_of_the_table() {
    assert_eq!(parse_sizes("10mb,1kb,10mb"), vec![("1KB", 1_024), ("10MB", 10_485_760)]);
}

#[test]
fn case_and_white_space_do_not_matter() {
    assert_eq!(parse_sizes(" 1Kb ,\t1MB\n"), vec![("1KB", 1_024), ("1MB", 1_048_576)]);
    assert_eq!(parse_sizes("\u{a0}100KB\u{2003}"), vec![("100KB", 102_400)]);
}

#[test]
fn unknown_names_select_nothing() {
    assert_eq!(parse_sizes(""), vec![]);
    assert_eq!(parse_sizes("2kb, ,kb,1 kb"), vec![]);
    assert_eq!(parse_sizes("nope,10kb"), vec![("10KB", 10_240)]);
}

#[test]
fn letters_that_lower_to_ascii_match() {
    // the Kelvin sign is a capital letter whose lower case is a plain k
    assert_eq!(parse_sizes("1\u{212a}B"), vec![("1KB", 1_024)]);
}

#[test]
fn names_are_cut_at_commas_trimmed_and_lowered() {
    assert_eq!(requested_names("A, bC ,,D e"), vec!["a", "bc", "", "d e"]);
    assert_eq!(requested_names(""), vec![""]);
    assert_eq!(requested_names(","), vec!["", ""]);
    assert_eq!(requested_names("\u{c4} "), vec!["\u{e4}"]);
}

#[test]
fn joined_lists_ask_for_both() {
    let mut both = requested_names("1kb, x");
    both.extend(requested_names("10KB"));
    assert_eq!(requested_names("1kb, x,10KB"), both);
}

#[test]
fn selection_goes_by_names_in_lower_case() {
    let names = |list: &[&str]| list.iter().map(|n| n.to_string()).collect::<Vec<String>>();
    assert_eq!(select_sizes(&names(&["1mb", "1kb"])), vec![("1KB", 1_024), ("1MB", 1_048_576)]);
    assert_eq!(select_sizes(&names(&["1MB"])), vec![]);
    assert_eq!(select_sizes(&names(&[])), vec![]);
}

#[test]
fn payloads_have_the_size_asked_for() {
    assert_eq!(generate_payload(0).len(), 0);
    assert_eq!(generate_payload(1_024).len(), 1_024);
    let payloads = generate_payloads(7, 3);
    assert_eq!(payloads.len(), 3);
    assert!(payloads.iter().all(|p| p.len() == 7));
    assert_eq!(generate_payloads(7, 0).len(), 0);
}

#[test]
fn payloads_are_drawn_at_random() {
    let payloads = generate_payloads(4_096, 2);
    assert!(payloads[0].iter().any(|b| *b != 0));
    assert_ne!(payloads[0], payloads[1]);
}

#[test]
fn payloads_are_numbered_from_zero() {
    let numbered = number_payloads(&vec![vec![5], vec![6, 7]]);
    assert_eq!(numbered, vec![(0, vec![5]), (1, vec![6, 7])]);
    assert!(numbered.iter().all(|p| p.0 != WARMUP_SEQUENCE_ID));
    assert_eq!(number_payloads(&vec![]), vec![]);
}

#[test]
fn white_space_is_what_unicode_says() {
    for c in '\0'..=char::MAX {
        let space = matches!(
            c,
            '\u{9}'..='\u{d}'
                | ' '
                | '\u{85}'
                | '\u{a0}'
                | '\u{1680}'
                | '\u{2000}'..='\u{200a}'
                | '\u{2028}'
                | '\u{2029}'
                | '\u{202f}'
                | '\u{205f}'
                | '\u{3000}'
        );
        let names = requested_names(&c.to_string());
        assert_eq!(names[0].is_empty(), space || c == ',');
    }
}
