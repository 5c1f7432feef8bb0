use std::path::Path;

use hwrng::sysfs::{
    file_name, hwrng_file, read_if_any, read_opt, read_or_empty, read_trimmed,
};
use hwrng::text::{join, same, split_whitespace, starts_with, trim, white_space};

#[test]
fn white_space_agrees_with_the_standard_library() {
    for n in 0..=0x10ffffu32 {
        if let Some(c) = char::from_u32(n) {
            assert_eq!(white_space(c), c.is_whitespace(), "{n:x}");
        }
    }
}

const SAMPLES: [&str; 12] = [
    "",
    " ",
    "a",
    " a",
    "a ",
    "tpm-rng-0 intel-rng\n",
    "\t a \u{a0} b\u{2003}c\r\n\r\n",
    "\u{3000}\u{85}x\u{2028}",
    "a\u{200b}b",
    "é ü\u{1680}日本 語",
    "none",
    "  a  b  ",
];

#[test]
fn words_and_trimming_agree_with_the_standard_library() {
    for s in SAMPLES {
        let expected: Vec<&str> = s.split_whitespace().collect();
        assert_eq!(split_whitespace(s), expected);
        assert_eq!(trim(s), s.trim());
        assert_eq!(split_whitespace(trim(s)), expected);
    }
}

#[test]
fn joined_words_come_back() {
    let words = ["tpm-rng-0", "intel", "日本"];
    let line = join(&words, " ");
    assert_eq!(line, "tpm-rng-0 intel 日本");
    assert_eq!(split_whitespace(&line), words);
    assert_eq!(join(&[], ", "), "");
    assert_eq!(join(&["a"], ", "), "a");
    assert_eq!(join(&["a", "", "b"], ", "), "a, , b");
}

#[test]
fn comparisons_agree_with_the_standard_library() {
    for a in SAMPLES {
        for b in SAMPLES {
            assert_eq!(same(a, b), a == b);
            assert_eq!(starts_with(a, b), a.starts_with(b));
        }
    }
    assert!(starts_with("éa", "é"));
    assert!(!starts_with("é", "éa"));
}

#[test]
fn file_names_agree_with_the_standard_library() {
    for path in [
        "", "/", ".", "..", "a", "a/b", "/a/b/", "a//b//", "a/.", "a/./.", "./", "/.", "a/..",
        "a/../.", "../../bus/pci/drivers/intel-rng", "a/...", ".a", "a/b.", "/sys/é/ü",
    ] {
        let expected = Path::new(path).file_name().map(|n| n.to_str().unwrap());
        assert_eq!(file_name(path), expected, "{path}");
    }
}

#[test]
fn readings_are_trimmed_or_reported() {
    let ok: Result<String, String> = Ok(" tpm-rng-0\n".to_string());
    let blank: Result<String, String> = Ok(" \n".to_string());
    let bad: Result<String, String> = Err("No such file (os error 2)".to_string());
    assert_eq!(read_trimmed("/x/y", &ok).unwrap(), "tpm-rng-0");
    assert_eq!(
        read_trimmed("/x/y", &bad).unwrap_err(),
        "failed to read /x/y: No such file (os error 2)"
    );
    assert_eq!(read_or_empty(&ok), "tpm-rng-0");
    assert_eq!(read_or_empty(&bad), "");
    assert_eq!(read_if_any(&blank).as_deref(), Some(""));
    assert_eq!(read_if_any(&bad), None);
    assert_eq!(read_opt(&ok).as_deref(), Some("tpm-rng-0"));
    assert_eq!(read_opt(&blank), None);
    assert_eq!(read_opt(&bad), None);
    assert_eq!(hwrng_file("rng_current"), "/sys/class/misc/hw_random/rng_current");
}
