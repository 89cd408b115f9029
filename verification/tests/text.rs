use just::capitalized::Capitalized;
use just::strings::{decimal, precedes, same};
use just::unindent::{blank, common, indentation, lines, unindent};

#[test]
fn empty() {
    assert_eq!("", Capitalized("").to_string());
}

#[test]
fn single() {
    assert_eq!("X", Capitalized("x").to_string());
}

#[test]
fn multiple() {
    assert_eq!("Xyz", Capitalized("xyz").to_string());
}

#[test]
fn capitalized_keeps_the_rest() {
    assert_eq!("XYz w", Capitalized("xYz w").to_string());
    assert_eq!("SSa", Capitalized("\u{df}a").to_string());
    assert_eq!("1a", Capitalized("1a").to_string());
}

#[test]
fn unindents() {
    assert_eq!(unindent("foo"), "foo");
    assert_eq!(unindent("foo\nbar\nbaz\n"), "foo\nbar\nbaz\n");
    assert_eq!(unindent(""), "");
    assert_eq!(unindent("  foo\n  bar"), "foo\nbar");
    assert_eq!(unindent("  foo\n  bar\n\n"), "foo\nbar\n");
    assert_eq!(unindent("  foo::\n#"), "  foo::\n#",);
}

#[test]
fn unindent_keeps_inner_blank_lines() {
    assert_eq!(unindent("\n    a\n\n      b\n    c\n  "), "a\n\n  b\nc\n");
    assert_eq!(unindent("\t\tx\n\t\ty\n"), "x\ny\n");
}

#[test]
fn unindent_of_text_beyond_ascii() {
    assert_eq!(unindent("  \u{e9}t\u{e9}\n  \u{4e16}\n"), "\u{e9}t\u{e9}\n\u{4e16}\n");
}

#[test]
fn indentations() {
    assert_eq!(indentation(""), "");
    assert_eq!(indentation("foo"), "");
    assert_eq!(indentation("   foo"), "   ");
    assert_eq!(indentation("\t\tfoo"), "\t\t");
    assert_eq!(indentation("\t \t foo"), "\t \t ");
}

#[test]
fn indentation_of_whitespace_alone() {
    assert_eq!(indentation("  \t"), "  \t");
    assert_eq!(indentation(" \u{e9} "), " ");
}

#[test]
fn blanks() {
    assert!(blank("       \n"));
    assert!(!blank("       foo\n"));
    assert!(blank("\t\t\n"));
}

#[test]
fn blank_allows_one_final_newline() {
    assert!(blank(""));
    assert!(blank("\n"));
    assert!(!blank("\n\n"));
    assert!(!blank(" \n "));
    assert!(!blank("\u{a0}"));
}

#[test]
fn commons() {
    assert_eq!(common("foo", "foobar"), "foo");
    assert_eq!(common("foo", "bar"), "");
    assert_eq!(common("", ""), "");
    assert_eq!(common("", "bar"), "");
    assert_eq!(common("foobar", "foo"), "foo");
}

#[test]
fn common_ends_after_the_last_agreement() {
    assert_eq!(common("abc", "xbc"), "abc");
    assert_eq!(common("abcd", "xbzz"), "ab");
    assert_eq!(common("\u{e9}a", "\u{e9}b"), "\u{e9}");
}

#[test]
fn line() {
    assert_eq!(lines("foo"), vec![(0, 3)]);
    assert_eq!(lines("foo\n"), vec![(0, 4)]);
    assert_eq!(lines("foo\nbar"), vec![(0, 4), (4, 7)]);
    assert_eq!(lines(""), vec![]);
}

#[test]
fn lines_count_bytes() {
    assert_eq!(lines("\u{e9}\nb"), vec![(0, 3), (3, 4)]);
    assert_eq!(lines("a\n\u{e9}"), vec![(0, 2)]);
    assert_eq!(lines("\n\n"), vec![(0, 1), (1, 2)]);
}

#[test]
fn strings_compare_as_their_bytes() {
    assert!(same("abc", "abc"));
    assert!(!same("abc", "abd"));
    assert!(!same("abc", "ab"));
    assert!(precedes("a", "b"));
    assert!(precedes("a", "ab"));
    assert!(!precedes("ab", "a"));
    assert!(!precedes("a", "a"));
    assert!(precedes("", "a"));
    assert!(precedes("Z", "a"));
    assert!(precedes("z", "\u{e9}"));
}

#[test]
fn decimals() {
    assert_eq!(decimal(0), "0");
    assert_eq!(decimal(7), "7");
    assert_eq!(decimal(10), "10");
    assert_eq!(decimal(1905), "1905");
    assert_eq!(decimal(usize::MAX), usize::MAX.to_string());
}
