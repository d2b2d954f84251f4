//! Characters, numbers and paths.

use oxiplay::number::{read_i64, read_unsigned, write_decimal, write_int, write_padded};
use oxiplay::paths::{extension_of, file_name_of, file_stem_of, join_path};
use oxiplay::text::{
    cut, find_text, from_chars, is_whitespace, join_text, lines_of, lowercase, rcut, replace_text,
    rfind_text, split_text, splitn_text, to_chars, trimmed, trimmed_end_char, trimmed_start_char,
};

fn chars(s: &str) -> Vec<char> {
    s.chars().collect()
}

fn texts(v: &[&[char]]) -> Vec<String> {
    v.iter().map(|s| s.iter().collect()).collect()
}

#[test]
fn white_space_is_that_of_unicode() {
    for n in 0..=0x10ffffu32 {
        if let Some(c) = char::from_u32(n) {
            assert_eq!(is_whitespace(c), c.is_whitespace(), "{n:x}");
        }
    }
}

#[test]
fn strings_become_characters_and_back() {
    let s = "aé🔖";
    assert_eq!(to_chars(s), chars(s));
    assert_eq!(from_chars(&chars(s)), s);
}

#[test]
fn texts_are_split_like_strings() {
    for s in ["", "a", "a,b", ",a,,b,", "no"] {
        let given = chars(s);
        let wanted: Vec<String> = s.split(',').map(str::to_string).collect();
        assert_eq!(texts(&split_text(&given, &[','])), wanted, "{s}");
        let wanted: Vec<String> = s.splitn(2, ',').map(str::to_string).collect();
        assert_eq!(texts(&splitn_text(&given, 2, &[','])), wanted, "{s}");
        assert_eq!(find_text(&given, &[',']), s.find(','));
        assert_eq!(rfind_text(&given, &[',']), s.rfind(','));
    }
    for s in ["", "a", "a\n", "a\r\nb", "\n\n", "a\rb\n\r\n"] {
        let given = chars(s);
        let wanted: Vec<String> = s.lines().map(str::to_string).collect();
        assert_eq!(texts(&lines_of(&given)), wanted, "{s:?}");
    }
}

#[test]
fn texts_are_cut_and_joined() {
    let given = chars("a--b--c");
    let (x, y) = cut(&given, &['-', '-']).unwrap();
    assert_eq!((x, y), (&chars("a")[..], &chars("b--c")[..]));
    let (x, y) = rcut(&given, &['-', '-']).unwrap();
    assert_eq!((x, y), (&chars("a--b")[..], &chars("c")[..]));
    assert!(cut(&given, &['+']).is_none());
    assert_eq!(replace_text(&given, &['-', '-'], &['+']), chars("a+b+c"));
    assert_eq!(join_text(&split_text(&given, &['-']), "/"), chars("a//b//c"));
    assert_eq!(trimmed(&chars(" \u{a0}x\t")), &['x']);
    assert_eq!(trimmed_end_char(&chars("a//"), '/'), &['a']);
    assert_eq!(trimmed_start_char(&chars("vv1"), 'v'), &['1']);
    assert_eq!(lowercase(&chars("ÀBc")), chars("Àbc"));
}

#[test]
fn numbers_are_read_and_written() {
    assert_eq!(write_decimal(0), ['0']);
    assert_eq!(write_decimal(u64::MAX), chars(&u64::MAX.to_string()));
    assert_eq!(write_int(i64::MIN), chars(&i64::MIN.to_string()));
    assert_eq!(write_padded(7, 3), chars("007"));
    assert_eq!(write_padded(1234, 3), chars("1234"));
    for s in ["", "+", "-", "+5", "-5", "12a", "9223372036854775807", "9223372036854775808",
        "-9223372036854775808", "-9223372036854775809", "--1", "00012"]
    {
        assert_eq!(read_i64(&chars(s)), s.parse::<i64>().ok(), "{s}");
    }
    assert_eq!(read_unsigned(&chars("ff"), 16, 255), Some(255));
    assert_eq!(read_unsigned(&chars("100"), 16, 255), None);
    assert_eq!(read_unsigned(&chars("4294967296"), 10, 4294967295), None);
}

#[test]
fn paths_are_those_of_the_system() {
    for s in ["/a/b.c", "a", "", "/", "..", "a/..", "a/.", "/a/.hidden", "x.tar.gz", "a//b//",
        "./b.", "a/./", ".", "/a/..b", "b.c/"]
    {
        let given = chars(s);
        let path = std::path::Path::new(s);
        let name = path.file_name().map(|n| n.to_string_lossy().into_owned());
        assert_eq!(file_name_of(&given).map(|v| v.iter().collect::<String>()), name, "{s}");
        let ext = path.extension().map(|n| n.to_string_lossy().into_owned());
        assert_eq!(extension_of(&given).map(|v| v.iter().collect::<String>()), ext, "{s}");
        let stem = path.file_stem().map(|n| n.to_string_lossy().into_owned());
        assert_eq!(file_stem_of(&given).map(|v| v.iter().collect::<String>()), stem, "{s}");
        for base in ["", "/m", "/m/", "m"] {
            let joined = std::path::Path::new(base).join(s).to_string_lossy().into_owned();
            assert_eq!(join_path(&chars(base), &given), chars(&joined), "{base} {s}");
        }
    }
}
