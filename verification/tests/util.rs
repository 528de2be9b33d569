use irc_bot::util::zwsp_munge;

#[test]
fn zwsp_munge_examples() {
    let no_strs: &[&str] = &[];

    let mut it = zwsp_munge("", no_strs);
    let it2 = it.clone();

    assert_eq!(it.len(), 0);

    assert_eq!(it.next(), None);

    assert_eq!(&it2.collect_string(), "");

    let mut it = zwsp_munge("", &["abc", "xyz", "quux"]);
    let it2 = it.clone();

    assert_eq!(it.len(), 0);

    assert_eq!(it.next(), None);

    assert_eq!(&it2.collect_string(), "");

    let mut it = zwsp_munge("abc xyz quux", no_strs);
    let it2 = it.clone();

    assert_eq!(it.len(), 1);

    assert_eq!(it.next().as_deref(), Some("abc xyz quux"));
    assert_eq!(it.next(), None);

    assert_eq!(&it2.collect_string(), "abc xyz quux");

    let mut it = zwsp_munge("lorem ipsum", &["quux", "psu"]);
    let it2 = it.clone();

    assert_eq!(it.len(), 3);

    assert_eq!(it.next().as_deref(), Some("lorem ip"));
    assert_eq!(it.next().as_deref(), Some("\u{200B}"));
    assert_eq!(it.next().as_deref(), Some("sum"));
    assert_eq!(it.next(), None);

    assert_eq!(&it2.collect_string(), "lorem ip\u{200B}sum");

    let mut it = zwsp_munge("foo bar baz", &["ba", "oo"]);
    let it2 = it.clone();

    assert_eq!(it.len(), 7);

    assert_eq!(it.next().as_deref(), Some("fo"));
    assert_eq!(it.next().as_deref(), Some("\u{200B}"));
    assert_eq!(it.next().as_deref(), Some("o b"));
    assert_eq!(it.next().as_deref(), Some("\u{200B}"));
    assert_eq!(it.next().as_deref(), Some("ar b"));
    assert_eq!(it.next().as_deref(), Some("\u{200B}"));
    assert_eq!(it.next().as_deref(), Some("az"));
    assert_eq!(it.next(), None);

    assert_eq!(
        &it2.collect_string(),
        "fo\u{200B}o b\u{200B}ar b\u{200B}az"
    );
}

use irc_bot::util::irc::{case_insensitive_str_cmp, ChannelName, ChannelNameError};
use irc_bot::util::to_cow_owned;
use std::cmp::Ordering;

#[test]
fn casefolded_comparison() {
    assert_eq!(case_insensitive_str_cmp("abc", "ABC"), Ordering::Equal);
    assert_eq!(case_insensitive_str_cmp("[x]", "{X}"), Ordering::Equal);
    assert_eq!(case_insensitive_str_cmp("a\\b~", "A|B^"), Ordering::Equal);
    assert_eq!(case_insensitive_str_cmp("abc", "abd"), Ordering::Less);
    assert_eq!(case_insensitive_str_cmp("ab", "abc"), Ordering::Less);
    assert_eq!(case_insensitive_str_cmp("B", "a"), Ordering::Greater);
    assert_eq!(case_insensitive_str_cmp("", ""), Ordering::Equal);
}

#[test]
fn casefold_order_is_transitive_on_examples() {
    let words = ["a", "B", "c[", "C{", "~", "^", "", "zz", "Zz"];
    for a in words.iter() {
        for b in words.iter() {
            for c in words.iter() {
                let ab = case_insensitive_str_cmp(a, b);
                let bc = case_insensitive_str_cmp(b, c);
                let ac = case_insensitive_str_cmp(a, c);
                if ab == Ordering::Less && bc == Ordering::Less {
                    assert_eq!(ac, Ordering::Less);
                }
                if ab == Ordering::Equal && bc == Ordering::Equal {
                    assert_eq!(ac, Ordering::Equal);
                }
                if ab == Ordering::Greater && bc == Ordering::Greater {
                    assert_eq!(ac, Ordering::Greater);
                }
                assert_eq!(ab, case_insensitive_str_cmp(b, a).reverse());
            }
        }
    }
}

#[test]
fn channel_names() {
    assert!(ChannelName::new("#rust").is_ok());
    assert!(ChannelName::new("&local").is_ok());
    assert!(ChannelName::new("+modeless").is_ok());
    assert!(ChannelName::new("!ABC12chan").is_ok());
    assert!(ChannelName::new("#a:b").is_ok());
    assert!(ChannelName::new("#").is_ok());
    assert_eq!(ChannelName::new("rust").unwrap_err(), ChannelNameError::InvalidChannelName("rust".to_owned()));
    assert!(ChannelName::new("#a b").is_err());
    assert!(ChannelName::new("#a,b").is_err());
    assert!(ChannelName::new("#a:b:c").is_err());
    assert!(ChannelName::new("!abc12x").is_err());
    assert!(ChannelName::new(&format!("#{}", "x".repeat(49))).is_ok());
    assert!(ChannelName::new(&format!("#{}", "x".repeat(50))).is_err());
    let a = ChannelName::new("#Rust").unwrap();
    let b = ChannelName::new("#rust").unwrap();
    assert!(a == b);
    assert_eq!(a.as_str(), "#Rust");
}

#[test]
fn owned_copies() {
    assert_eq!(to_cow_owned("abc"), "abc".to_owned());
}

#[test]
fn munge_len_counts_the_pieces_left() {
    let mut it = zwsp_munge("foo bar baz", &["ba", "oo"]);
    let mut left = 7;
    assert_eq!(it.size_hint(), (7, Some(7)));
    while let Some(_) = it.next() {
        left -= 1;
        assert_eq!(it.len(), left);
        assert_eq!(it.size_hint(), (left, Some(left)));
    }
    assert_eq!(left, 0);
    assert_eq!(it.len(), 0);
}

#[test]
fn zwsp_munge_exact_size() {
    let cases: [(&str, &[&str]); 5] = [
        ("", &[]),
        ("x", &["xy"]),
        ("aaaa", &["aa", "a"]),
        ("foo bar baz", &["ba", "oo", "o b"]),
        ("naïve naïve", &["ïv", "e n"]),
    ];
    for (s, needles) in cases.iter() {
        let it = zwsp_munge(s, needles);
        let claimed = it.len();
        let mut counter = it.clone();
        let mut count = 0;
        while counter.next().is_some() {
            count += 1;
        }
        assert_eq!(claimed, count);
    }
}
