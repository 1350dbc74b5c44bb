use std::path::Path;

use cordy::bytes;
use cordy::engine::goal::Usd;
use cordy::paths;
use cordy::text;

#[test]
fn white_space_is_unicode_white_space() {
    for c in '\0'..=char::MAX {
        assert_eq!(text::is_white_space(c), c.is_whitespace(), "{:x}", c as u32);
    }
}

const SAMPLES: [&str; 12] = [
    "",
    "a",
    "\n",
    "a\n",
    "a\r\nb\r\n",
    "\r",
    "  two  words\t\u{a0}here \n",
    "a,b,,c,",
    "aaaa",
    "héllo wörld — ünïcode",
    "\u{2003}x\u{3000}",
    "one\n\ntwo\nthree",
];

#[test]
fn splitting_agrees_with_the_standard_library() {
    for s in SAMPLES {
        assert_eq!(text::lines(s), s.lines().collect::<Vec<_>>(), "{s:?}");
        assert_eq!(text::words(s), s.split_whitespace().collect::<Vec<_>>(), "{s:?}");
        assert_eq!(text::split_char(s, ','), s.split(',').collect::<Vec<_>>(), "{s:?}");
        assert_eq!(text::trim(s), s.trim(), "{s:?}");
        assert_eq!(text::trim_start(s), s.trim_start(), "{s:?}");
        assert_eq!(text::trim_end(s), s.trim_end(), "{s:?}");
        assert_eq!(text::trim_end_matches(s, 'a'), s.trim_end_matches('a'), "{s:?}");
        assert_eq!(text::trim_start_matches(s, 'a'), s.trim_start_matches('a'), "{s:?}");
        assert_eq!(text::replace(s, "aa", "b"), s.replace("aa", "b"), "{s:?}");
        assert_eq!(text::replace_once(s, "a", "xyz"), s.replacen("a", "xyz", 1), "{s:?}");
        assert_eq!(text::count_matches(s, "a"), s.matches("a").count() as u128, "{s:?}");
        assert_eq!(text::contains(s, "wo"), s.contains("wo"), "{s:?}");
        assert_eq!(text::starts_with(s, "a"), s.starts_with('a'), "{s:?}");
        assert_eq!(text::ends_with(s, "\n"), s.ends_with('\n'), "{s:?}");
    }
}

#[test]
fn ordering_agrees_with_the_standard_library() {
    for a in SAMPLES {
        for b in SAMPLES {
            assert_eq!(text::less(a, b), a < b, "{a:?} {b:?}");
            assert_eq!(text::same(a, b), a == b, "{a:?} {b:?}");
        }
    }
    let mut names: Vec<String> = SAMPLES.iter().map(|s| s.to_string()).collect();
    let sorted = text::sort(&names);
    names.sort();
    assert_eq!(sorted, names);
    assert_eq!(
        text::sort_dedup(&vec!["b".into(), "a".into(), "b".into()]),
        vec!["a".to_string(), "b".to_string()]
    );
}

#[test]
fn numbers_are_written_and_read_in_decimal() {
    for n in [0u64, 7, 10, 99, 100, u64::MAX] {
        assert_eq!(text::decimal_of(n), n.to_string());
    }
    for n in [i64::MIN, -1, 0, 42, i64::MAX] {
        assert_eq!(text::signed_decimal_of(n), n.to_string());
        assert_eq!(text::parse_i64(&n.to_string()), Some(n));
    }
    for s in ["", "+", "-", "+5", "1a", "9223372036854775808", "-9223372036854775809"] {
        assert_eq!(text::parse_i64(s), s.parse::<i64>().ok(), "{s:?}");
    }
    assert_eq!(text::right_align("7", 4), format!("{:>4}", "7"));
    assert_eq!(text::right_align("12345", 4), "12345");
}

#[test]
fn joining_undoes_splitting() {
    let parts: Vec<String> = vec!["a".into(), "".into(), "c d".into()];
    let whole = text::join(&parts, ",");
    assert_eq!(whole, "a,,c d");
    assert_eq!(text::split_char(&whole, ','), vec!["a", "", "c d"]);
}

#[test]
fn cuts_stay_between_characters() {
    let s = "aé😀b";
    assert_eq!(bytes::tail_of(s, 100), s);
    assert_eq!(bytes::tail_of(s, 1), "b");
    assert_eq!(bytes::tail_of(s, 2), "b");
    assert_eq!(bytes::tail_of(s, 5), "😀b");
    assert_eq!(bytes::behind_of(s, 0), s);
    assert_eq!(bytes::behind_of(s, 1), "é😀b");
    assert_eq!(bytes::behind_of(s, 3), "😀b");
    assert_eq!(bytes::behind_of(s, s.len()), "");
    for c in ['a', 'é', '€', '😀'] {
        assert_eq!(bytes::width_of(c), c.len_utf8());
    }
}

#[test]
fn paths_join_and_end_as_the_standard_library_has_them() {
    for (base, part) in [
        ("/a", "b"),
        ("/a/", "b"),
        ("/a", "/b"),
        ("", "b"),
        ("a", ""),
        ("/", "b/c"),
        ("a/b", "../c"),
    ] {
        assert_eq!(
            paths::join(base, part),
            Path::new(base).join(part).to_str().unwrap(),
            "{base:?} {part:?}"
        );
    }
    for p in ["/", "/a", "/a/b", "/a/b/", "a", "a/b", "", "./a"] {
        assert_eq!(
            paths::parent(p),
            Path::new(p).parent().map(|p| p.to_str().unwrap().to_string()),
            "{p:?}"
        );
        assert_eq!(paths::is_absolute(p), Path::new(p).is_absolute(), "{p:?}");
        for base in ["/", "/a", "a", ""] {
            assert_eq!(
                paths::starts_with(p, base),
                Path::new(p).starts_with(base),
                "{p:?} {base:?}"
            );
        }
    }
}

#[test]
fn amounts_compare_as_floating_point_numbers() {
    let amounts = [
        0.0,
        -0.0,
        1.0,
        -1.0,
        0.25,
        1e300,
        -1e300,
        f64::MIN_POSITIVE,
        5e-324,
        f64::INFINITY,
        f64::NEG_INFINITY,
        f64::NAN,
    ];
    for a in amounts {
        for b in amounts {
            let (x, y) = (Usd { bits: a.to_bits() }, Usd { bits: b.to_bits() });
            assert_eq!(x.at_least(y), a >= b, "{a} {b}");
            assert_eq!(x.below(y), a < b, "{a} {b}");
        }
        assert_eq!(Usd { bits: a.to_bits() }.is_finite(), a.is_finite(), "{a}");
    }
}
