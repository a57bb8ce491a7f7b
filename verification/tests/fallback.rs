use proc_macro2::detection::{force, unforce, Implementation};
use proc_macro2::ident::{is_ident_continue, is_ident_start, validate_ident, Ident, IdentError};
use proc_macro2::literal::Literal;
use proc_macro2::source_map::{get_cursor, lines_offsets, FileInfo, SourceMap};
use proc_macro2::span::{LineColumn, Span};
use proc_macro2::token::{Delimiter, Group, Punct, Spacing, TokenStream, TokenTree};

fn sp(lo: u32, hi: u32) -> Span {
    Span { lo, hi }
}

fn ident(s: &str) -> TokenTree {
    TokenTree::Ident(Ident::new(s, Span::call_site()))
}

fn punct(c: char, spacing: Spacing) -> TokenTree {
    TokenTree::Punct(Punct::new(c, spacing))
}

#[test]
fn call_site_spans_are_empty_at_zero() {
    assert_eq!(Span::call_site(), sp(0, 0));
    assert_eq!(Span::mixed_site(), sp(0, 0));
    assert_eq!(Span::def_site(), sp(0, 0));
}

#[test]
fn resolved_and_located_at() {
    assert_eq!(sp(1, 2).resolved_at(sp(5, 9)), sp(5, 9));
    assert_eq!(sp(1, 2).located_at(sp(5, 9)), sp(1, 2));
}

#[test]
fn first_and_last_byte() {
    assert_eq!(sp(3, 8).first_byte(), sp(3, 4));
    assert_eq!(sp(3, 8).last_byte(), sp(7, 8));
    assert_eq!(sp(4, 4).first_byte(), sp(4, 4));
    assert_eq!(sp(4, 4).last_byte(), sp(4, 4));
    assert_eq!(sp(u32::MAX, u32::MAX).first_byte(), sp(u32::MAX, u32::MAX));
    assert_eq!(sp(0, 0).last_byte(), sp(0, 0));
}

#[test]
fn line_offsets_count_bytes() {
    assert_eq!(lines_offsets(""), vec![0]);
    assert_eq!(lines_offsets("ab\ncd\n"), vec![0, 3, 6]);
    assert_eq!(lines_offsets("\u{e9}\nx"), vec![0, 3]);
    assert_eq!(lines_offsets("\n\n"), vec![0, 1, 2]);
}

#[test]
fn offset_line_column_finds_the_line() {
    let fi = FileInfo { name: "f".to_string(), span: sp(10, 17), lines: vec![0, 3, 6] };
    assert_eq!(fi.offset_line_column(10), LineColumn { line: 1, column: 0 });
    assert_eq!(fi.offset_line_column(12), LineColumn { line: 1, column: 2 });
    assert_eq!(fi.offset_line_column(13), LineColumn { line: 2, column: 0 });
    assert_eq!(fi.offset_line_column(15), LineColumn { line: 2, column: 2 });
    assert_eq!(fi.offset_line_column(16), LineColumn { line: 3, column: 0 });
    assert_eq!(fi.offset_line_column(17), LineColumn { line: 3, column: 1 });
    assert!(fi.span_within(sp(11, 17)));
    assert!(!fi.span_within(sp(9, 12)));
    assert!(!fi.span_within(sp(11, 18)));
}

#[test]
fn new_source_map_holds_the_dummy_file() {
    let cm = SourceMap::new();
    assert_eq!(cm.files.len(), 1);
    assert_eq!(cm.files[0].name, "<unspecified>");
    assert_eq!(cm.files[0].span, sp(0, 0));
    assert_eq!(cm.files[0].lines, vec![0]);
    assert_eq!(cm.next_start_pos(), 1);
}

#[test]
fn add_file_places_files_after_each_other() {
    let mut cm = SourceMap::new();
    let a = cm.add_file("a", "ab\ncd");
    assert_eq!(a, sp(1, 6));
    let b = cm.add_file("b", "xyz");
    assert_eq!(b, sp(7, 10));
    assert_eq!(cm.files.len(), 3);
    assert_eq!(cm.files[1].lines, vec![0, 3]);
    assert_eq!(cm.fileinfo(sp(8, 9)).name, "b");
    assert_eq!(cm.fileinfo(sp(0, 0)).name, "<unspecified>");
}

#[test]
fn get_cursor_names_parsed_strings() {
    let mut cm = SourceMap::new();
    let c = get_cursor(&mut cm, "fn f() {}\n");
    assert_eq!(c.rest, "fn f() {}\n");
    assert_eq!(c.off, 1);
    assert_eq!(cm.files[1].name, "<parsed string 1>");
    let c2 = get_cursor(&mut cm, "x");
    assert_eq!(c2.off, 12);
    assert_eq!(cm.files[2].name, "<parsed string 2>");
}

#[test]
fn start_and_end_of_spans() {
    let mut cm = SourceMap::new();
    let whole = cm.add_file("a", "ab\ncde\nf");
    assert_eq!(whole.start(&cm), LineColumn { line: 1, column: 0 });
    assert_eq!(whole.end(&cm), LineColumn { line: 3, column: 1 });
    let inner = sp(whole.lo + 4, whole.lo + 6);
    assert_eq!(inner.start(&cm), LineColumn { line: 2, column: 1 });
    assert_eq!(inner.end(&cm), LineColumn { line: 2, column: 3 });
    assert_eq!(sp(0, 0).start(&cm), LineColumn { line: 1, column: 0 });
}

#[test]
fn join_within_and_across_files() {
    let mut cm = SourceMap::new();
    let a = cm.add_file("a", "abcdef");
    let b = cm.add_file("b", "ghi");
    let x = sp(a.lo + 1, a.lo + 2);
    let y = sp(a.lo + 4, a.lo + 6);
    assert_eq!(x.join(y, &cm), Some(sp(a.lo + 1, a.lo + 6)));
    assert_eq!(y.join(x, &cm), Some(sp(a.lo + 1, a.lo + 6)));
    assert_eq!(x.join(b, &cm), None);
    assert_eq!(b.join(x, &cm), None);
}

#[test]
fn source_file_names_the_file() {
    let mut cm = SourceMap::new();
    let _ = get_cursor(&mut cm, "abc");
    let f = cm.files[1].span.source_file(&cm);
    assert_eq!(f.path(), "<parsed string 1>");
    assert!(!f.is_real());
    assert_eq!(sp(0, 0).source_file(&cm).path(), "<unspecified>");
}

#[test]
fn ident_character_classes() {
    assert!(is_ident_start('a'));
    assert!(is_ident_start('_'));
    assert!(!is_ident_start('1'));
    assert!(is_ident_start('\u{e9}'));
    assert!(!is_ident_start('\u{b7}'));
    assert!(is_ident_continue('1'));
    assert!(is_ident_continue('\u{b7}'));
    assert!(!is_ident_continue('-'));
    assert!(!is_ident_continue(' '));
}

#[test]
fn validate_ident_reasons() {
    assert_eq!(validate_ident(""), Err(IdentError::Empty));
    assert_eq!(validate_ident("123"), Err(IdentError::Number));
    assert_eq!(validate_ident("1a"), Err(IdentError::Invalid));
    assert_eq!(validate_ident("a-b"), Err(IdentError::Invalid));
    assert_eq!(validate_ident("\u{b7}a"), Err(IdentError::Invalid));
    assert_eq!(validate_ident("_x1"), Ok(()));
    assert_eq!(validate_ident("caf\u{e9}"), Ok(()));
}

#[test]
fn ident_construction_and_text() {
    let id = Ident::new("foo", sp(1, 4));
    assert_eq!(id.to_text(), "foo");
    assert_eq!(id.span(), sp(1, 4));
    let raw = Ident::new_raw("match", Span::call_site());
    assert_eq!(raw.to_text(), "r#match");
    assert!(Ident::checked_new("1x", false, Span::call_site()).is_err());
    assert_eq!(
        Ident::checked_new("", true, Span::call_site()).err(),
        Some(IdentError::Empty)
    );
    let ok = Ident::checked_new("x", true, Span::call_site()).ok().unwrap();
    assert_eq!(ok.to_text(), "r#x");
    let mut moved = id.duplicate();
    moved.set_span(sp(7, 9));
    assert_eq!(moved.span(), sp(7, 9));
    assert_eq!(moved.to_text(), "foo");
}

#[test]
fn ident_comparisons() {
    let id = Ident::new("foo", Span::call_site());
    let raw = Ident::new_raw("foo", Span::call_site());
    assert!(id.eq_str("foo"));
    assert!(!id.eq_str("r#foo"));
    assert!(!id.eq_str("fo"));
    assert!(raw.eq_str("r#foo"));
    assert!(!raw.eq_str("foo"));
    assert!(!raw.eq_str("r#fo"));
    assert!(!raw.eq_str("r"));
    assert!(id.eq_ident(&Ident::new("foo", sp(3, 6))));
    assert!(!id.eq_ident(&raw));
    assert!(raw.eq_str(&raw.to_text()));
}

#[test]
fn string_literals_escape() {
    assert_eq!(Literal::string("abc").to_text(), "\"abc\"");
    assert_eq!(Literal::string("a\nb").to_text(), "\"a\\nb\"");
    assert_eq!(Literal::string("it's \"q\"").to_text(), "\"it's \\\"q\\\"\"");
    assert_eq!(Literal::string("\\\t").to_text(), "\"\\\\\\t\"");
    assert_eq!(Literal::string("").to_text(), "\"\"");
    assert_eq!(Literal::string("\u{e9}").to_text(), "\"\u{e9}\"");
}

#[test]
fn character_literals_escape() {
    assert_eq!(Literal::character('a').to_text(), "'a'");
    assert_eq!(Literal::character('"').to_text(), "'\"'");
    assert_eq!(Literal::character('\'').to_text(), "'\\''");
    assert_eq!(Literal::character('\n').to_text(), "'\\n'");
}

#[test]
fn byte_string_literals_escape() {
    assert_eq!(Literal::byte_string(b"hi").to_text(), "b\"hi\"");
    assert_eq!(
        Literal::byte_string(&[0, 9, 10, 13, 34, 92, 0x7f, 0xff, 0x20, 0x7e]).to_text(),
        "b\"\\0\\t\\n\\r\\\"\\\\\\x7F\\xFF ~\""
    );
    assert_eq!(Literal::byte_string(&[]).to_text(), "b\"\"");
    assert!(Literal::byte_string(&[1, 200, 31]).to_text().bytes().all(|b| (0x20..=0x7e).contains(&b)));
}

#[test]
fn integer_literals() {
    assert_eq!(Literal::u8_suffixed(42).to_text(), "42u8");
    assert_eq!(Literal::u8_unsuffixed(0).to_text(), "0");
    assert_eq!(Literal::u16_suffixed(65535).to_text(), "65535u16");
    assert_eq!(Literal::u32_unsuffixed(1000).to_text(), "1000");
    assert_eq!(Literal::u64_suffixed(u64::MAX).to_text(), "18446744073709551615u64");
    assert_eq!(Literal::u128_unsuffixed(u128::MAX).to_text(), "340282366920938463463374607431768211455");
    assert_eq!(Literal::usize_suffixed(7).to_text(), "7usize");
    assert_eq!(Literal::i8_suffixed(-128).to_text(), "-128i8");
    assert_eq!(Literal::i16_unsuffixed(-1).to_text(), "-1");
    assert_eq!(Literal::i32_suffixed(0).to_text(), "0i32");
    assert_eq!(Literal::i64_unsuffixed(i64::MAX).to_text(), "9223372036854775807");
    assert_eq!(Literal::i128_suffixed(i128::MIN).to_text(), "-170141183460469231731687303715884105728i128");
    assert_eq!(Literal::isize_unsuffixed(-5).to_text(), "-5");
}

#[test]
fn literal_spans() {
    let mut lit = Literal::_new("x".to_string());
    assert_eq!(lit.span(), Span::call_site());
    lit.set_span(sp(2, 3));
    assert_eq!(lit.span(), sp(2, 3));
    assert_eq!(lit.subspan(0..1), None);
    assert_eq!(lit.duplicate().to_text(), "x");
}

#[test]
fn punct_accessors() {
    let mut p = Punct::new('+', Spacing::Joint);
    assert_eq!(p.as_char(), '+');
    assert_eq!(p.spacing(), Spacing::Joint);
    assert_eq!(p.span(), Span::call_site());
    p.set_span(sp(4, 5));
    assert_eq!(p.span(), sp(4, 5));
}

#[test]
fn stream_text_spacing() {
    let s = TokenStream::from_trees(vec![
        ident("a"),
        punct('+', Spacing::Joint),
        punct('=', Spacing::Alone),
        TokenTree::Literal(Literal::u8_unsuffixed(1)),
        punct(';', Spacing::Alone),
    ]);
    assert_eq!(s.to_text(), "a += 1 ;");
    assert_eq!(TokenStream::new().to_text(), "");
}

#[test]
fn stream_text_of_groups() {
    let body = TokenStream::from_trees(vec![ident("x"), punct(',', Spacing::Alone), ident("y")]);
    let paren = Group::new(Delimiter::Parenthesis, body.duplicate());
    let empty = Group::new(Delimiter::Brace, TokenStream::new());
    let invisible = Group::new(Delimiter::Invisible, TokenStream::from_trees(vec![ident("z")]));
    assert_eq!(paren.to_text(), "(x , y)");
    assert_eq!(empty.to_text(), "{}");
    assert_eq!(invisible.to_text(), "z");
    let s = TokenStream::from_trees(vec![
        ident("f"),
        TokenTree::Group(paren),
        TokenTree::Group(empty),
        TokenTree::Group(invisible),
        TokenTree::Group(Group::new(Delimiter::Bracket, TokenStream::new())),
    ]);
    assert_eq!(s.to_text(), "f ( x , y ) { }  z  [ ]");
}

#[test]
fn joint_punct_before_group_and_ident() {
    let s = TokenStream::from_trees(vec![
        punct('#', Spacing::Joint),
        TokenTree::Group(Group::new(Delimiter::Bracket, TokenStream::from_trees(vec![ident("x")]))),
        punct('\'', Spacing::Joint),
        ident("a"),
    ]);
    assert_eq!(s.to_text(), "#[ x ] 'a");
}

#[test]
fn group_accessors() {
    let mut g = Group::new(Delimiter::Brace, TokenStream::from_trees(vec![ident("x")]));
    assert_eq!(g.delimiter(), Delimiter::Brace);
    assert_eq!(g.span(), Span::call_site());
    g.set_span(sp(10, 15));
    assert_eq!(g.span(), sp(10, 15));
    assert_eq!(g.span_open(), sp(10, 11));
    assert_eq!(g.span_close(), sp(14, 15));
    assert_eq!(g.stream().to_text(), "x");
    assert_eq!(g.stream().to_text(), "x");
}

#[test]
fn streams_build_and_extend() {
    let mut s = TokenStream::new();
    assert!(s.is_empty());
    s.extend_trees(vec![ident("a")]);
    assert!(!s.is_empty());
    s.extend_streams(vec![
        TokenStream::from_tree(ident("b")),
        TokenStream::new(),
        TokenStream::from_trees(vec![ident("c"), ident("d")]),
    ]);
    assert_eq!(s.to_text(), "a b c d");
    let joined = TokenStream::from_streams(vec![s.duplicate(), TokenStream::from_tree(ident("e"))]);
    assert_eq!(joined.to_text(), "a b c d e");
    assert!(TokenStream::from_streams(vec![TokenStream::new(), TokenStream::new()]).is_empty());
    let trees = joined.into_trees();
    assert_eq!(trees.len(), 5);
    assert_eq!(trees[4].to_text(), "e");
}

#[test]
fn token_tree_text_and_copy() {
    let t = TokenTree::Group(Group::new(Delimiter::Parenthesis, TokenStream::new()));
    assert_eq!(t.to_text(), "( )");
    assert_eq!(t.duplicate().to_text(), "( )");
    assert_eq!(punct('!', Spacing::Alone).to_text(), "!");
    assert_eq!(TokenTree::Ident(Ident::new_raw("fn", Span::call_site())).to_text(), "r#fn");
}

#[test]
fn force_and_unforce() {
    let mut state = Implementation::Undecided;
    force(&mut state);
    assert_eq!(state, Implementation::Fallback);
    unforce(&mut state, true);
    assert_eq!(state, Implementation::Compiler);
    unforce(&mut state, false);
    assert_eq!(state, Implementation::Fallback);
}

#[test]
fn debug_renderings() {
    assert_eq!(sp(3, 17).debug_text(), "bytes(3..17)");
    assert_eq!(
        Ident::new_raw("foo", Span::call_site()).debug_text(),
        "Ident { sym: r#foo, span: bytes(0..0) }"
    );
    let mut lit = Literal::string("a");
    lit.set_span(sp(1, 4));
    assert_eq!(lit.debug_text(), "Literal { lit: \"a\", span: bytes(1..4) }");
}

#[test]
fn float_text_adds_a_decimal_point() {
    assert_eq!(Literal::float_text("1".to_string()).to_text(), "1.0");
    assert_eq!(Literal::float_text("1.5".to_string()).to_text(), "1.5");
    assert_eq!(Literal::float_text("-0".to_string()).to_text(), "-0.0");
    assert_eq!(Literal::float_text("inf".to_string()).to_text(), "inf.0");
}

#[test]
fn source_file_debug_rendering() {
    let mut cm = SourceMap::new();
    let _ = get_cursor(&mut cm, "abc");
    let f = cm.files[1].span.source_file(&cm);
    assert_eq!(f.debug_text(), "SourceFile { path: \"<parsed string 1>\", is_real: false }");
}

#[test]
fn escapes_of_special_characters() {
    assert_eq!(Literal::character('\0').to_text(), "'\\0'");
    assert_eq!(Literal::character('\u{301}').to_text(), "'\\u{301}'");
    assert_eq!(Literal::string("\u{7f}\r").to_text(), "\"\\u{7f}\\r\"");
    assert_eq!(Literal::string("\0x").to_text(), "\"\\0x\"");
    assert_eq!(Literal::character('\\').to_text(), "'\\\\'");
    assert_eq!(Literal::character('\t').to_text(), "'\\t'");
}
