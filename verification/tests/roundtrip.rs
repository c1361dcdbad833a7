use fcs::panel::ChannelMap;
use fcs::text::Text;

fn pairs(entries: &[(&str, &str)]) -> Vec<(String, String)> {
    entries.iter().map(|(k, v)| (k.to_string(), v.to_string())).collect()
}

#[test]
fn encoding_then_parsing_keeps_the_mapping() {
    let src = pairs(&[
        ("$PAR", "2"),
        ("$TOT", "100"),
        ("$P1N", "FSC-A"),
        ("note", "va/lue with spaces"),
    ]);
    let dict = Text::from_pairs(&src);
    let encoded = dict.to_delimited(b'/');
    let reparsed = Text::new(&encoded).unwrap();
    assert_eq!(reparsed.pairs().len(), src.len());
    for (k, v) in &src {
        assert_eq!(reparsed.get(k).unwrap(), v);
    }
}

#[test]
fn encoding_writes_the_delimited_format() {
    let dict = Text::from_pairs(&pairs(&[("a", "b"), ("c", "d")]));
    assert_eq!(dict.to_delimited(b'/'), b"/a/b/c/d/".to_vec());
}

#[test]
fn encoding_doubles_delimiters_inside_values() {
    let dict = Text::from_pairs(&pairs(&[("key", "a/b")]));
    assert_eq!(dict.to_delimited(b'/'), b"/key/a//b/".to_vec());
}

#[test]
fn from_pairs_keeps_the_last_value_of_a_key() {
    let dict = Text::from_pairs(&pairs(&[("a", "1"), ("b", "2"), ("a", "3")]));
    assert_eq!(dict.get("a").unwrap().as_str(), "3");
    assert_eq!(dict.get("b").unwrap().as_str(), "2");
    assert_eq!(dict.pairs().len(), 2);
}

#[test]
fn round_trip_survives_a_multibyte_value() {
    let src = pairs(&[("$SRC", "µ-well µ/µ")]);
    let dict = Text::from_pairs(&src);
    let reparsed = Text::new(&dict.to_delimited(b'/')).unwrap();
    assert_eq!(reparsed.get("$SRC").unwrap().as_str(), "µ-well µ/µ");
}

#[test]
fn channel_map_matches_only_its_own_pair() {
    let map = ChannelMap {
        channel: "FITC".to_string(),
        marker: "CD3".to_string(),
    };
    assert!(map.check_matched_pair("FITC".to_string(), "CD3".to_string()));
    assert!(!map.check_matched_pair("FITC".to_string(), "CD4".to_string()));
    assert!(!map.check_matched_pair("PE".to_string(), "CD3".to_string()));
}
