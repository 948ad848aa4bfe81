use iu5years::{chars_of, decimal, logo, parse_markup, replace_all, uptime, Color, Modifier, Stat, Style};

fn chars(s: &str) -> Vec<char> {
    s.chars().collect()
}

fn string_of(v: &[char]) -> String {
    v.iter().collect()
}

fn plain() -> Style {
    Style { fg: Color::Reset, bg: Color::Reset, modifier: Modifier::Plain }
}

#[test]
fn chars_of_matches_the_source_text() {
    assert_eq!(chars_of("ab c"), vec!['a', 'b', ' ', 'c']);
    assert_eq!(chars_of(""), Vec::<char>::new());
}

#[test]
fn replace_all_rewrites_every_occurrence() {
    let out = replace_all(&chars("aXbXXc"), &chars("X"), &chars("{fg=yellow X}"));
    assert_eq!(string_of(&out), "a{fg=yellow X}b{fg=yellow X}{fg=yellow X}c");
}

#[test]
fn replace_all_never_rescans_replaced_text() {
    // the replacement contains the pattern; only source occurrences count
    let out = replace_all(&chars("xx"), &chars("x"), &chars("xy"));
    assert_eq!(string_of(&out), "xyxy");
    let empty_pat = replace_all(&chars("ab"), &chars(""), &chars("z"));
    assert_eq!(string_of(&empty_pat), "ab");
}

#[test]
fn logo_substitution_colorizes_the_glyphs() {
    let out = logo(&chars("X:|-|"));
    assert_eq!(
        string_of(&out),
        "{fg=yellow X}{fg=green :}|{fg=green -}|"
    );
    let words = logo(&chars("INNOPOLIS UNIVERSITY"));
    assert_eq!(
        string_of(&words),
        "{fg=white I}{fg=green NN}{fg=white OPOLIS} {fg=white UNIVERSITY}"
    );
}

#[test]
fn uptime_substitution_colorizes_the_hash() {
    let out = uptime(&chars("#up#"));
    assert_eq!(string_of(&out), "{fg=magenta #}up{fg=magenta #}");
}

#[test]
fn markup_tokens_become_styled_runs() {
    let out = parse_markup(&chars("a{fg=yellow X}b"), plain());
    let yellow = Style { fg: Color::Yellow, bg: Color::Reset, modifier: Modifier::Plain };
    assert_eq!(out, vec![('a', plain()), ('X', yellow), ('b', plain())]);
}

#[test]
fn markup_keeps_the_base_style_outside_tokens() {
    let base = Style { fg: Color::Cyan, bg: Color::Reset, modifier: Modifier::Bold };
    let out = parse_markup(&chars("hi {fg=green :} yo"), base);
    let green = Style { fg: Color::Green, bg: Color::Reset, modifier: Modifier::Bold };
    let text: String = out.iter().map(|p| p.0).collect();
    assert_eq!(text, "hi : yo");
    assert_eq!(out[3], (':', green));
    assert_eq!(out[0], ('h', base));
}

#[test]
fn malformed_markup_falls_back_to_literal_text() {
    let out = parse_markup(&chars("{fg=nosuchcolor x}"), plain());
    let text: String = out.iter().map(|p| p.0).collect();
    assert_eq!(text, "{fg=nosuchcolor x}");
    assert!(out.iter().all(|p| p.1 == plain()));

    let unclosed = parse_markup(&chars("{fg=green x"), plain());
    let text2: String = unclosed.iter().map(|p| p.0).collect();
    assert_eq!(text2, "{fg=green x");
}

#[test]
fn decimal_renders_without_leading_zeros() {
    assert_eq!(decimal(0), "0");
    assert_eq!(decimal(7), "7");
    assert_eq!(decimal(30), "30");
    assert_eq!(decimal(109), "109");
    assert_eq!(decimal(255), "255");
}

#[test]
fn stat_labels_count_up_and_wrap_after_the_thirtieth() {
    let activity: Vec<u64> = (0..31).map(|i| i as u64 + 1).collect();
    let stat = Stat::new(11, 10, &activity);
    let data = stat.data();
    assert_eq!(data.len(), 31);
    assert_eq!(data[0], ("10", 1));
    assert_eq!(data[20], ("30", 21));
    assert_eq!(data[21], ("1", 22));
    assert_eq!(data[30], ("10", 31));
}

#[test]
fn stat_keeps_the_activity_values_in_order() {
    let activity: Vec<u64> = vec![20, 39, 2, 55, 119];
    let stat = Stat::new(1, 1, &activity);
    let data = stat.data();
    let values: Vec<u64> = data.iter().map(|p| p.1).collect();
    assert_eq!(values, activity);
    let labels: Vec<&str> = data.iter().map(|p| p.0).collect();
    assert_eq!(labels, vec!["1", "2", "3", "4", "5"]);
}
