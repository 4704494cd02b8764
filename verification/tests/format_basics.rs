//! The indentation tracker and the output buffer.

use gqltools::format::{Indentation, Output};

#[test]
fn test_indentation() {
    let mut indent = Indentation::new(2);
    indent.increment();
    indent.increment();
    indent.decrement();

    assert_eq!(indent.spaces(), "  ");
}

#[test]
fn test_output() {
    let mut out = Output::new();
    let mut indent = Indentation::new(2);
    indent.increment();
    out.push("a", &indent);

    assert_eq!(out.to_string(), "  a");
}

#[test]
fn test_output_current_line() {
    let mut out = Output::new();

    assert_eq!(out.current_line(), "");
    out.push_str("hi");
    assert_eq!(out.current_line(), "hi");
    out.push_str("ho\n");
    assert_eq!(out.current_line(), "hiho");
    out.push_str("hux");
    assert_eq!(out.current_line(), "hux");
}

#[test]
fn trim_output() {
    let mut out = Output::new();
    let indent = Indentation::new(0);
    out.push("\n   a  \t  \n", &indent);

    assert_eq!(out.trim(), "a");
}

#[test]
fn current_line_length_counts_characters() {
    let mut out = Output::new();
    out.push_str("abc\nde");
    assert_eq!(out.current_line_length(), 2);
}

#[test]
fn wider_indentation_unit() {
    let mut indent = Indentation::new(4);
    indent.increment();
    assert_eq!(indent.spaces(), "    ");
    indent.increment();
    assert_eq!(indent.spaces(), "        ");
}
