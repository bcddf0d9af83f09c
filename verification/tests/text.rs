use std::path::Path;

use zsnap::config::names_a_file;
use zsnap::names::{NameMap, NameSet};
use zsnap::shorthand::{expand_config_shorthand, friendly_dataset_header, friendly_template_header, friendly_template_list};
use zsnap::text::{
    before, ends_with, has_char, is_ascii_alphanumeric, is_whitespace, joined, lowercased, number, replaced,
    same, signed, split_char, split_lines, split_once, starts_with, strip_prefix, strip_suffix, trimmed, unsigned, word,
    zero_padded,
};

const SAMPLES: [&str; 14] = [
    "", " ", "a", "  a b\t", "a,b,,c", "tank/data@x", "é 🦀 ü", "\u{a0}x\u{2003}", "line\r\nnext\n", "\n\n", "key = value",
    "AbC", "aaa", "x\u{feff}",
];

#[test]
fn whitespace_is_that_of_the_standard_library() {
    for c in '\0'..=char::MAX {
        assert_eq!(is_whitespace(c), c.is_whitespace(), "{c:?}");
        assert_eq!(is_ascii_alphanumeric(c), c.is_ascii_alphanumeric(), "{c:?}");
    }
}

#[test]
fn texts_are_cut_as_the_standard_library_cuts_them() {
    for text in SAMPLES {
        assert_eq!(trimmed(text), text.trim(), "{text:?}");
        assert_eq!(lowercased(text), text.to_ascii_lowercase(), "{text:?}");
        assert_eq!(split_lines(text), text.lines().collect::<Vec<_>>(), "{text:?}");
        assert_eq!(word(text), text.split_whitespace().next().unwrap_or(""), "{text:?}");
        for c in [',', ' ', 'a', '\n'] {
            assert_eq!(split_char(text, c), text.split(c).collect::<Vec<_>>(), "{text:?} {c:?}");
            assert_eq!(has_char(text, c), text.contains(c));
            let pair = split_once(text, c);
            let pair = pair.as_ref().map(|(a, b)| (a.as_str(), b.as_str()));
            assert_eq!(pair, text.split_once(c), "{text:?} {c:?}");
        }
        for other in SAMPLES {
            assert_eq!(same(text, other), text == other);
            assert_eq!(before(text, other), text < other, "{text:?} {other:?}");
            assert_eq!(starts_with(text, other), text.starts_with(other), "{text:?} {other:?}");
            assert_eq!(ends_with(text, other), text.ends_with(other), "{text:?} {other:?}");
            assert_eq!(strip_prefix(text, other).as_deref(), text.strip_prefix(other));
            assert_eq!(strip_suffix(text, other).as_deref(), text.strip_suffix(other));
            assert_eq!(replaced(text, other, "<>"), text.replace(other, "<>"), "{text:?} {other:?}");
        }
    }
    let parts: Vec<String> = SAMPLES.iter().map(|text| (*text).to_owned()).collect();
    assert_eq!(joined(&parts, ", "), SAMPLES.join(", "));
}

#[test]
fn numbers_are_read_and_written_as_the_standard_library_does() {
    for text in [
        "0", "+7", "-7", "007", "", "+", "-", "1 ", "255", "256", "18446744073709551615", "18446744073709551616",
        "-9223372036854775808", "-9223372036854775809", "9223372036854775807", "9223372036854775808", "1_0", "٣",
    ] {
        assert_eq!(unsigned(text, u64::MAX), text.parse::<u64>().ok(), "{text:?}");
        assert_eq!(unsigned(text, 255), text.parse::<u8>().ok().map(u64::from), "{text:?}");
        assert_eq!(signed(text), text.parse::<i64>().ok(), "{text:?}");
    }
    for n in [0, 9, 10, 1_234_567, u64::MAX] {
        assert_eq!(number(n), n.to_string());
        assert_eq!(zero_padded(n, 4), format!("{n:04}"));
    }
}

#[test]
fn paths_name_files_as_the_standard_library_sees_them() {
    for path in ["", "/", "a", "a/", "a/.", "a/..", "..", ".", "/a/b", "a//b//", "a/./", "./", "/.."] {
        assert_eq!(names_a_file(path), Path::new(path).file_name().is_some(), "{path:?}");
    }
}

#[test]
fn names_are_kept_in_order_and_once() {
    let mut set = NameSet::new();
    for (name, added) in [("b", true), ("a", true), ("c", true), ("a", false)] {
        assert_eq!(set.insert(name.to_owned()), added);
    }
    assert_eq!(set.to_vec(), ["a", "b", "c"]);
    assert!(set.contains("b") && !set.contains("d"));

    let mut map = NameMap::new();
    map.insert("b".to_owned(), "1".to_owned());
    map.insert("a".to_owned(), "2".to_owned());
    map.insert("b".to_owned(), "3".to_owned());
    assert_eq!(map.keys(), ["a", "b"]);
    assert_eq!(map.get("b").unwrap(), "3");
    assert_eq!(map.remove("b").unwrap(), "3");
    assert_eq!(map.remove("b"), None);
    assert_eq!(map.len(), 1);
}

#[test]
fn shorthand_is_written_out() {
    let expanded = |raw: &str| expand_config_shorthand(raw).unwrap();
    assert_eq!(
        expanded("version = 1\n[template_base] # x\n[tank/data]\nuse_templates = [base, other]\n[settings]\n"),
        "version = 1\n[templates.\"base\"] # x\n[datasets.\"tank/data\"]\nuse_templates = [\"base\", \"other\"]\n[settings]\n"
    );
    // What is TOML already stays as it is.
    let plain = "[templates.base]\n[datasets.\"tank\".policy]\nuse_templates = [\"a\"]\n[[notifications.webhooks]]\n";
    assert_eq!(expanded(plain), plain);
}

#[test]
fn each_shorthand_knows_its_lines() {
    assert_eq!(friendly_template_header("[template_a]", 1).unwrap().unwrap(), "[templates.\"a\"]");
    assert_eq!(friendly_template_header("[tank]", 1).unwrap(), None);
    assert!(friendly_template_header("[template_]", 1).is_err());
    assert_eq!(friendly_dataset_header("[tank/a]", 1).unwrap().unwrap(), "[datasets.\"tank/a\"]");
    assert_eq!(friendly_dataset_header("[\"tank/a\"]", 1).unwrap().unwrap(), "[datasets.\"tank/a\"]");
    assert_eq!(friendly_dataset_header("[settings]", 1).unwrap(), None);
    assert_eq!(friendly_dataset_header("a = 1", 1).unwrap(), None);
    assert_eq!(friendly_template_list("  use_templates = [a]", 1).unwrap().unwrap(), "  use_templates = [\"a\"]");
    assert_eq!(friendly_template_list("hourly = 1", 1).unwrap(), None);
    assert!(friendly_template_list("use_templates = [a b]", 1).is_err());
}

#[test]
fn longer_forms_are_no_shorthand() {
    let raw = "  [datasets.\"tank/data\"] # kept\n[templates.base]\n[settings]\n[[notifications.webhooks]]\nuse_templates = [\"base\", 'x.y']\n";
    assert_eq!(expand_config_shorthand(raw).unwrap(), raw);
}
