use thea::codeblocks::{codeblock_open_html, number_lines, parse_codeblock_open, parse_usize, CodeBlockOpen};
use thea::text::decimal;

fn chars(s: &str) -> Vec<char> {
    s.chars().collect()
}

#[test]
fn info_string_language_only() {
    let o = parse_codeblock_open("rust");
    assert_eq!(o.lang.as_deref(), Some("rust"));
    assert_eq!(o.filename, None);
    assert_eq!(o.highlights, None);
}

#[test]
fn info_string_all_options() {
    let o = parse_codeblock_open("  js filename=app.js\thighlight=1,3,x,12 ");
    assert_eq!(o.lang.as_deref(), Some("js"));
    assert_eq!(o.filename.as_deref(), Some("app.js"));
    assert_eq!(o.highlights, Some(vec![1, 3, 12]));
}

#[test]
fn info_string_later_words_override() {
    let o = parse_codeblock_open("a b highlight=2 highlight=x other=1");
    assert_eq!(o.lang.as_deref(), Some("b"));
    assert_eq!(o.highlights, None);
}

#[test]
fn info_string_empty() {
    let o = parse_codeblock_open("");
    assert_eq!(o.lang, None);
    assert_eq!(o.filename, None);
    assert_eq!(o.highlights, None);
}

#[test]
fn usize_parsing_matches_std() {
    for s in ["0", "42", "+7", "", "+", "-1", "1a", "18446744073709551615", "18446744073709551616", " 1"] {
        assert_eq!(parse_usize(&chars(s)), s.parse::<usize>().ok(), "input {:?}", s);
    }
}

#[test]
fn decimal_digits() {
    assert_eq!(decimal(0), vec!['0']);
    assert_eq!(decimal(907), vec!['9', '0', '7']);
}

#[test]
fn open_markup() {
    let o = CodeBlockOpen { lang: Some("rust".to_string()), filename: Some("main.rs".to_string()), highlights: None };
    assert_eq!(
        codeblock_open_html(&o),
        "<span class=\"pre-filename\">main.rs</span><pre class=\"lang-rust\"><code>"
    );
    assert_eq!(codeblock_open_html(&CodeBlockOpen::default()), "<pre><code>");
}

#[test]
fn numbered_lines_with_highlight() {
    let out = number_lines("a\nb\n", &Some(vec![2]));
    assert_eq!(
        out,
        "<div class=\"line\"><span class=\"line-nb\">1</span>a</div>\
         <div class=\"line line-highlight\"><span class=\"line-nb\">2</span>b</span></div>"
    );
}

#[test]
fn numbered_lines_drop_last_piece() {
    assert_eq!(number_lines("x", &None), "");
    assert_eq!(number_lines("", &None), "");
    assert_eq!(
        number_lines("x\n", &None),
        "<div class=\"line\"><span class=\"line-nb\">1</span>x</div>"
    );
}
