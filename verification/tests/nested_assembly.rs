use supernote_lib::nested::extract_nested_key_value;

fn flat(entries: &[(&str, &[&str])]) -> Vec<(String, Vec<String>)> {
    entries
        .iter()
        .map(|(k, vs)| (k.to_string(), vs.iter().map(|v| v.to_string()).collect()))
        .collect()
}

fn prefixes(names: &[&str]) -> Vec<String> {
    names.iter().map(|p| p.to_string()).collect()
}

fn nested(entries: &[(&str, &[(&str, &str)])]) -> Vec<(String, Vec<(String, String)>)> {
    entries
        .iter()
        .map(|(main, subs)| {
            (
                main.to_string(),
                subs.iter()
                    .map(|(s, v)| (s.to_string(), v.to_string()))
                    .collect(),
            )
        })
        .collect()
}

#[test]
fn splits_on_delimiter() {
    let result = extract_nested_key_value(&flat(&[("PAGE.WIDTH", &["100"])]), '.', &prefixes(&[]));
    assert_eq!(result, nested(&[("PAGE", &[("WIDTH", "100")])]));
}

#[test]
fn splits_on_known_prefix() {
    let result =
        extract_nested_key_value(&flat(&[("PAGESTYLE", &["x"])]), '.', &prefixes(&["PAGE"]));
    assert_eq!(result, nested(&[("PAGE", &[("STYLE", "x")])]));
}

#[test]
fn multi_valued_entries_are_excluded() {
    let result = extract_nested_key_value(
        &flat(&[("PAGE.WIDTH", &["100", "200"])]),
        '.',
        &prefixes(&[]),
    );
    assert_eq!(result, Vec::new());
    let result = extract_nested_key_value(&flat(&[("PAGE.WIDTH", &[])]), '.', &prefixes(&[]));
    assert_eq!(result, Vec::new());
}

#[test]
fn unmatched_keys_are_skipped() {
    let result = extract_nested_key_value(&flat(&[("WIDTH", &["100"])]), '.', &prefixes(&["PAGE"]));
    assert_eq!(result, Vec::new());
}

#[test]
fn splits_on_first_delimiter_occurrence() {
    let result = extract_nested_key_value(&flat(&[("A.B.C", &["v"])]), '.', &prefixes(&[]));
    assert_eq!(result, nested(&[("A", &[("B.C", "v")])]));
}

#[test]
fn delimiter_wins_over_prefix() {
    let result = extract_nested_key_value(
        &flat(&[("PAGE.WIDTH", &["v"])]),
        '.',
        &prefixes(&["PAGE.W"]),
    );
    assert_eq!(result, nested(&[("PAGE", &[("WIDTH", "v")])]));
}

#[test]
fn first_matching_prefix_wins() {
    let result = extract_nested_key_value(
        &flat(&[("COVERPAGE", &["v"])]),
        '.',
        &prefixes(&["COVER", "COVERPAGE"]),
    );
    assert_eq!(result, nested(&[("COVER", &[("PAGE", "v")])]));
}

#[test]
fn later_collision_overwrites_earlier() {
    let result = extract_nested_key_value(
        &flat(&[("PAGE.W", &["1"]), ("PAGEW", &["2"])]),
        '.',
        &prefixes(&["PAGE"]),
    );
    assert_eq!(result, nested(&[("PAGE", &[("W", "2")])]));
}

#[test]
fn main_keys_group_sub_entries() {
    let result = extract_nested_key_value(
        &flat(&[
            ("PAGE.W", &["1"]),
            ("COVER.X", &["2"]),
            ("PAGE.H", &["3"]),
        ]),
        '.',
        &prefixes(&[]),
    );
    assert_eq!(
        result,
        nested(&[
            ("PAGE", &[("W", "1"), ("H", "3")]),
            ("COVER", &[("X", "2")]),
        ])
    );
}
