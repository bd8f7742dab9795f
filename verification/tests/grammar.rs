use shortcodes::{
    fetch_shortcodes, range_shift, shortcode_placeholder, ArgValue, ShortcodeContext, Span,
};

#[test]
fn self_closing_round_trip() {
    let (rewritten, found) = fetch_shortcodes("{{ name(k=true) }}");
    assert_eq!(rewritten, String::from(shortcode_placeholder()));
    assert_eq!(
        found,
        vec![ShortcodeContext::new(
            "name",
            vec![("k", ArgValue::Boolean(true))],
            Span::new(0, shortcode_placeholder().len()),
            None
        )]
    );
}

#[test]
fn body_capture_exactness() {
    let (rewritten, found) = fetch_shortcodes("{% a() %}INNER{% end %}");
    assert_eq!(rewritten, String::from(shortcode_placeholder()));
    assert_eq!(found.len(), 1);
    assert_eq!(found[0].body(), Some(&String::from("INNER")));
    assert_eq!(*found[0].span(), Span::new(0, shortcode_placeholder().len()));
}

#[test]
fn mismatched_body_opener_is_inert() {
    let input = "{% abc() }}";
    assert_eq!(fetch_shortcodes(input), (String::from(input), vec![]));
}

#[test]
fn number_string_and_list_arguments() {
    let input = "{{ n(x=-42, l=[1, \"two\", true], s=\"a\\\"b\\\\c\") }}";
    let (rewritten, found) = fetch_shortcodes(input);
    assert_eq!(rewritten, String::from(shortcode_placeholder()));
    assert_eq!(found.len(), 1);
    assert_eq!(found[0].name(), &String::from("n"));
    let args = found[0].args();
    assert_eq!(args.len(), 3);
    assert_eq!(args[0], (String::from("x"), ArgValue::Number(-42)));
    assert_eq!(
        args[1],
        (
            String::from("l"),
            ArgValue::List(vec![
                ArgValue::Number(1),
                ArgValue::Text(String::from("two")),
                ArgValue::Boolean(true),
            ])
        )
    );
    assert_eq!(args[2], (String::from("s"), ArgValue::Text(String::from("a\"b\\c"))));
}

#[test]
fn empty_argument_list_and_false_keyword() {
    let (rewritten, found) = fetch_shortcodes("{{ a() }}{{ b(f=false) }}");
    assert_eq!(rewritten, format!("{0}{0}", shortcode_placeholder()));
    assert_eq!(found.len(), 2);
    assert_eq!(found[0].args().len(), 0);
    assert_eq!(found[1].args()[0], (String::from("f"), ArgValue::Boolean(false)));
    assert_eq!(
        *found[1].span(),
        Span::new(shortcode_placeholder().len(), 2 * shortcode_placeholder().len())
    );
}

#[test]
fn duplicate_argument_name_is_inert() {
    let input = "{{ a(x=1, x=2) }}";
    assert_eq!(fetch_shortcodes(input), (String::from(input), vec![]));
}

#[test]
fn oversized_number_is_inert() {
    let input = "{{ a(x=99999999999999999999) }}";
    assert_eq!(fetch_shortcodes(input), (String::from(input), vec![]));
}

#[test]
fn unterminated_body_drops_descriptor() {
    let (rewritten, found) = fetch_shortcodes("{% a() %}rest");
    assert_eq!(rewritten, format!("{}rest", shortcode_placeholder()));
    assert_eq!(found, vec![]);
}

#[test]
fn spurious_end_marker_is_plain_text() {
    let input = "before {% end %} after";
    assert_eq!(fetch_shortcodes(input), (String::from(input), vec![]));
}

#[test]
fn end_marker_case_and_whitespace() {
    let (rewritten, found) = fetch_shortcodes("{%a()%}X{%  END  %}");
    assert_eq!(rewritten, String::from(shortcode_placeholder()));
    assert_eq!(found.len(), 1);
    assert_eq!(found[0].body(), Some(&String::from("X")));
}

#[test]
fn shift_spans_both_ways() {
    assert_eq!(range_shift(&Span::new(5, 10), 3, true), Some(Span::new(8, 13)));
    assert_eq!(range_shift(&Span::new(5, 10), 3, false), Some(Span::new(2, 7)));
    assert_eq!(range_shift(&Span::new(5, 10), 6, false), None);
}

#[test]
fn update_ignores_edit_within_span() {
    let mut ctx = ShortcodeContext::new("a", Vec::new(), Span::new(10, 18), None);
    ctx.update_on_source_insert(10, 3, 9);
    assert_eq!(*ctx.span(), Span::new(10, 18));
    ctx.update_on_source_insert(17, 1, 2);
    assert_eq!(*ctx.span(), Span::new(10, 18));
}

#[test]
fn spans_count_characters() {
    let (rewritten, found) = fetch_shortcodes("h\u{e9}llo {{ a() }}");
    assert_eq!(rewritten, format!("h\u{e9}llo {}", shortcode_placeholder()));
    assert_eq!(found.len(), 1);
    assert_eq!(*found[0].span(), Span::new(6, 6 + shortcode_placeholder().len()));
}

#[test]
fn nested_list_argument() {
    let (rewritten, found) = fetch_shortcodes("{{ a(l=[[1, 2], []]) }}");
    assert_eq!(rewritten, String::from(shortcode_placeholder()));
    assert_eq!(found.len(), 1);
    assert_eq!(
        found[0].args()[0],
        (
            String::from("l"),
            ArgValue::List(vec![
                ArgValue::List(vec![ArgValue::Number(1), ArgValue::Number(2)]),
                ArgValue::List(vec![]),
            ])
        )
    );
}
