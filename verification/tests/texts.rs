use bperf::browser_lab;
use bperf::digest;
use bperf::json::{self, JsonMember, JsonNumber, JsonValue};
use bperf::number::{self, Number};
use bperf::ordered;
use bperf::paths::{self, PathError, PathPart};
use bperf::sidecar_runtime::HostPlatform;
use bperf::text;

#[test]
fn whitespace_is_that_of_the_language() {
    for code in 0..=0x10_ffff_u32 {
        if let Some(c) = char::from_u32(code) {
            assert_eq!(text::white(c), c.is_whitespace(), "{code:x}");
        }
    }
}

#[test]
fn texts_are_trimmed_split_and_compared_like_strings() {
    for sample in ["", "  ", " a b\t", "\u{a0}x\u{3000}", "plain", "\n\nlines\n"] {
        assert_eq!(text::trim(sample), sample.trim());
        let lines: Vec<String> = sample.lines().map(str::to_owned).collect();
        assert_eq!(text::split_lines(sample), lines);
    }
    assert_eq!(text::split_lines("a\r\nb\n\nc"), ["a", "b", "", "c"]);
    assert!(text::same("é", "é"));
    assert!(!text::same("e", "é"));
    assert!(text::before("a", "b") && !text::before("b", "a") && !text::before("a", "a"));
    assert!(text::before("a", "aa") && text::before("", "a"));
    assert!(text::has_prefix("cycle-1", "cycle-") && !text::has_prefix("cycl", "cycle-"));
    assert!(text::has_suffix("a.bench.ts", ".bench.ts") && !text::has_suffix("ts", ".ts"));
    assert!(text::contains_text("abcabd", "abd") && !text::contains_text("abcab", "abd"));
    assert!(text::contains_text("anything", ""));
    assert!(text::contains_char("a=b", '=') && !text::contains_char("ab", '='));
}

#[test]
fn numbers_are_written_and_read_back() {
    for n in [0, 7, 10, 99, 100, 1_234_567_890, u64::MAX] {
        assert_eq!(text::decimal_text(n), n.to_string());
        assert_eq!(text::parse_u64(&text::decimal_text(n)), Some(n));
    }
    for sample in ["", "+", "-", "+5", "-0", "007", "18446744073709551615", "18446744073709551616", "1 ", "x", "１"] {
        assert_eq!(text::parse_u64(sample), sample.parse::<u64>().ok(), "{sample:?}");
    }
    assert_eq!(text::padded_text(7, 3), "007");
    assert_eq!(text::padded_text(1234, 3), "1234");
}

#[test]
fn padded_numbers_sort_as_they_count() {
    let low = text::padded_text(99, 13);
    let high = text::padded_text(100, 13);
    assert!(text::before(&low, &high));
}

#[test]
fn texts_are_divided_and_rewritten() {
    assert_eq!(text::divide("a=b=c", '='), Some(("a".to_owned(), "b=c".to_owned())));
    assert_eq!(text::divide("abc", '='), None);
    assert_eq!(text::replace(r"a\b\c", '\\', '/'), "a/b/c");
    assert_eq!(text::lower_text("ABC-é-Z"), "abc-é-z");
    assert_eq!(text::upper_text("abc-é-z"), "ABC-é-Z");
    assert_eq!(text::strip_prefix("cycle-9", "cycle-"), Some("9".to_owned()));
    assert_eq!(text::strip_prefix("9", "cycle-"), None);
    assert_eq!(text::take_start("éab", 2), "éa");
    assert_eq!(text::take_start("ab", 5), "ab");
    assert_eq!(text::copy_opt(&Some("x".to_owned())), Some("x".to_owned()));
    assert!(text::same_opt(&None, &None) && !text::same_opt(&Some("a".to_owned()), &None));
}

#[test]
fn identifiers_hold_letters_digits_and_few_marks() {
    assert!(text::identifier("parser-main"));
    assert!(!text::identifier(""));
    assert!(!text::identifier("a b"));
    assert!(!text::identifier("ä"));
}

#[test]
fn digests_are_sixty_four_hexadecimal_digits() {
    let digest = "0123456789abcdef".repeat(4);
    assert!(digest::digest_text(&digest));
    assert!(!digest::digest_text(&digest[1..]));
    assert!(digest::digest_text(&digest.to_uppercase()));
    assert!(!digest::digest_text(&digest.replace('a', "g")));
    assert!(digest::hash_id(&format!("cycle-{digest}"), "cycle-"));
    assert!(!digest::hash_id(&digest, "cycle-"));
    assert!(digest::hex('f') && !digest::hex('g'));
}

#[test]
fn framed_fields_keep_their_lengths() {
    let mut buffer = Vec::new();
    digest::push_framed(&mut buffer, &[1, 2, 3]);
    digest::push_framed_text(&mut buffer, "ab");
    let mut expected = 3_u64.to_le_bytes().to_vec();
    expected.extend([1, 2, 3]);
    expected.extend(2_u64.to_le_bytes());
    expected.extend(b"ab");
    assert_eq!(buffer, expected);
}

#[test]
fn an_ordered_list_keeps_each_text_once() {
    let mut items = Vec::new();
    assert!(ordered::insert(&mut items, "b"));
    assert!(ordered::insert(&mut items, "a"));
    assert!(!ordered::insert(&mut items, "b"));
    assert!(ordered::insert(&mut items, "c"));
    assert_eq!(items, ["a", "b", "c"]);
}

#[test]
fn paths_are_taken_apart_like_those_of_the_system() {
    for sample in ["", "/", "a", "a/b", "/a/b/", "./a", "a/./b", "a//b", "..", "../a/..", "/..", "a/b/."] {
        let path = std::path::Path::new(sample);
        let own: Vec<String> = paths::components(sample)
            .into_iter()
            .map(|part| match part {
                PathPart::Root => "/".to_owned(),
                PathPart::Current => ".".to_owned(),
                PathPart::Parent => "..".to_owned(),
                PathPart::Name(name) => name,
            })
            .collect();
        let system: Vec<String> = path
            .components()
            .map(|part| part.as_os_str().to_string_lossy().into_owned())
            .collect();
        assert_eq!(own, system, "{sample:?}");
        assert_eq!(
            paths::parent_path(sample),
            path.parent().map(|parent| parent.to_string_lossy().into_owned()),
            "{sample:?}"
        );
        assert_eq!(
            paths::file_name(sample),
            path.file_name().map(|name| name.to_string_lossy().into_owned()),
            "{sample:?}"
        );
        assert_eq!(
            paths::extension(sample),
            path.extension().map(|name| name.to_string_lossy().into_owned()),
            "{sample:?}"
        );
        assert_eq!(paths::absolute(sample), path.is_absolute());
        for other in ["", "a", "/", "/a", "a/b"] {
            assert_eq!(
                paths::begins_with(other, sample),
                path.starts_with(other),
                "{other:?} {sample:?}"
            );
            assert_eq!(
                paths::same_path(other, sample),
                path == std::path::Path::new(other)
            );
            assert_eq!(
                paths::path_before(other, sample),
                std::path::Path::new(other) < path,
                "{other:?} {sample:?}"
            );
        }
    }
    assert_eq!(paths::extension("a/.hidden"), None);
    assert_eq!(paths::extension("a/b.tar.gz"), Some("gz".to_owned()));
}

#[test]
fn paths_are_joined_like_those_of_the_system() {
    for (base, path) in [("a", "b"), ("a/", "b"), ("", "b"), ("a", "/b"), ("/", "b"), ("a", "")] {
        assert_eq!(
            paths::join(base, path),
            std::path::Path::new(base).join(path).to_string_lossy()
        );
    }
    assert_eq!(paths::directory_of("a/b"), "a");
}

#[test]
fn portable_paths_lie_below_their_base() {
    assert_eq!(paths::portable_path("a/./b"), Ok("a/b".to_owned()));
    assert_eq!(paths::portable_path("./a"), Err(PathError::NotRelative));
    assert_eq!(paths::portable_path("a//b"), Ok("a/b".to_owned()));
    assert_eq!(paths::portable_path("/a"), Err(PathError::NotRelative));
    assert_eq!(paths::portable_path("../a"), Err(PathError::NotRelative));
    assert_eq!(paths::portable_path(""), Err(PathError::Empty));
    assert_eq!(paths::relative_path("/w", "/w/src/a.ts"), Ok("src/a.ts".to_owned()));
    assert_eq!(paths::relative_path("/w", "/v/a.ts"), Err(PathError::Outside));
}

#[test]
fn lists_of_paths_stay_ordered_and_distinct() {
    let mut files = Vec::new();
    assert!(paths::insert_path(&mut files, "b/a"));
    assert!(paths::insert_path(&mut files, "a"));
    assert!(!paths::insert_path(&mut files, "b//a"));
    assert_eq!(files, ["a", "b/a"]);
    assert!(paths::all_distinct(&files));
    assert!(!paths::all_distinct(&vec!["a".to_owned(), "a".to_owned()]));
}

fn samples() -> Vec<f64> {
    vec![
        0.0,
        -0.0,
        1.0,
        -1.0,
        0.5,
        99.999,
        100.0,
        100.001,
        f64::MAX,
        f64::MIN,
        f64::MIN_POSITIVE,
        5e-324,
        f64::INFINITY,
        f64::NEG_INFINITY,
        f64::NAN,
        -f64::NAN,
    ]
}

#[test]
fn numbers_compare_like_floating_point() {
    for a in samples() {
        let x = Number::from_bits(a.to_bits());
        assert_eq!(x.is_nan(), a.is_nan());
        assert_eq!(x.is_finite(), a.is_finite());
        assert_eq!(number::is_finite_positive(x), a.is_finite() && a > 0.0, "{a}");
        assert_eq!(number::is_finite_non_negative(x), a.is_finite() && a >= 0.0, "{a}");
        for b in samples() {
            let y = Number::from_bits(b.to_bits());
            assert_eq!(x.is_less(y), a < b, "{a} {b}");
            assert_eq!(x.is_at_most(y), a <= b, "{a} {b}");
            assert_eq!(x.is_equal(y), a == b, "{a} {b}");
            assert_eq!(x.comes_before(y), a.total_cmp(&b).is_lt(), "{a} {b}");
        }
    }
}

#[test]
fn numbers_are_arranged_in_total_order() {
    let mut expected = samples();
    expected.sort_by(f64::total_cmp);
    let arranged = number::arrange(
        &samples()
            .into_iter()
            .map(|value| Number::from_bits(value.to_bits()))
            .collect(),
    );
    let own: Vec<u64> = arranged.into_iter().map(|value| value.bits).collect();
    let system: Vec<u64> = expected.into_iter().map(f64::to_bits).collect();
    assert_eq!(own, system);
}

#[test]
fn whole_numbers_become_floating_point() {
    for n in [0, 1, 2, 3, 7, 64, 65_535, 1_000_003, u32::MAX - 1, u32::MAX] {
        assert_eq!(number::from_u32(n).bits, f64::from(n).to_bits(), "{n}");
    }
}

fn object(members: Vec<(&str, JsonValue)>) -> JsonValue {
    JsonValue::Object(
        members
            .into_iter()
            .map(|(name, value)| JsonMember { name: name.to_owned(), value })
            .collect(),
    )
}

#[test]
fn values_are_equal_whatever_the_order_of_their_members() {
    let one = || JsonValue::Number(JsonNumber::Unsigned(1));
    let a = object(vec![("x", one()), ("y", JsonValue::Null)]);
    let b = object(vec![("y", JsonValue::Null), ("x", one())]);
    assert!(json::equal(&a, &b));
    assert!(!json::equal(&a, &object(vec![("x", one())])));
    assert!(!json::equal(&a, &object(vec![("x", one()), ("z", JsonValue::Null)])));
    assert!(!json::equal(&a, &object(vec![("x", JsonValue::Null), ("y", one())])));
    assert!(!json::equal(
        &JsonValue::Array(vec![one(), JsonValue::Null]),
        &JsonValue::Array(vec![JsonValue::Null, one()])
    ));
    assert!(matches!(a.get("x"), Some(JsonValue::Number(JsonNumber::Unsigned(1)))));
    assert!(a.get("z").is_none());
    assert!(one().get("x").is_none());
    assert!(!json::equal_numbers(JsonNumber::Unsigned(1), JsonNumber::Negative(-1)));
}

#[test]
fn paths_of_windows_are_read_with_slashes() {
    let windows = |path: &str| paths::read_path(path, HostPlatform::Windows);
    assert_eq!(windows(r"\\?\C:\work\a.ts"), "/C:/work/a.ts");
    assert_eq!(windows(r"C:\work\a.ts"), "/C:/work/a.ts");
    assert_eq!(windows(r"\\?\UNC\server\share"), "//server/share");
    assert_eq!(windows(r"traces\a.jsonl"), "traces/a.jsonl");
    assert_eq!(windows("/C:/work"), "/C:/work");
    assert!(paths::begins_with(&windows(r"\\?\C:\work"), &windows(r"C:\work\a.ts")));
    assert!(!paths::begins_with(&windows(r"C:\work"), &windows(r"D:\work\a.ts")));
    assert!(paths::absolute(&windows("C:a")));
    assert!(!browser_lab::is_contained(&windows(r"..\x")));
    assert!(!browser_lab::is_contained(&windows(r"C:\x")));
    assert!(browser_lab::is_contained(&windows(r"a\x")));
    assert_eq!(paths::read_path(r"..\x", HostPlatform::Other), r"..\x");
    assert_eq!(paths::read_path("C:/x", HostPlatform::Other), "C:/x");

    assert_eq!(paths::system_path("/C:/work/a.ts", HostPlatform::Windows), "C:/work/a.ts");
    assert_eq!(paths::system_path("//server/share", HostPlatform::Windows), "//server/share");
    assert_eq!(paths::system_path("traces/a", HostPlatform::Windows), "traces/a");
    assert_eq!(paths::system_path("/C:/work", HostPlatform::Other), "/C:/work");
}
