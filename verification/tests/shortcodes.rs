use shortcodes::{fetch_shortcodes, shortcode_placeholder, ArgValue, ShortcodeContext, Span};

#[test]
fn update_spans() {
    let mut ctx = ShortcodeContext::new("a", Vec::new(), Span::new(10, 20), None);
    ctx.update_on_source_insert(2, 8, 10);
    assert_eq!(ctx.span().clone(), Span::new(12, 22));
    ctx.update_on_source_insert(24, 30, 30);
    assert_eq!(ctx.span().clone(), Span::new(12, 22));
    ctx.update_on_source_insert(5, 11, 6);
    assert_eq!(ctx.span().clone(), Span::new(7, 17));
}

#[test]
fn no_shortcodes() {
    assert_eq!(fetch_shortcodes(""), (String::from(""), vec![]));
    assert_eq!(fetch_shortcodes("abc"), (String::from("abc"), vec![]));
    assert_eq!(fetch_shortcodes("{{ abc }}"), (String::from("{{ abc }}"), vec![]));
    assert_eq!(fetch_shortcodes("{{ abc() %}"), (String::from("{{ abc() %}"), vec![]));
}

#[test]
fn basic() {
    let test_str = r#"
# Hello World!

{{ abc(wow=true) }}

{% bodied(def="Hello!") %}The inside of this body{% end %}"#;

    let fst_start = "\n# Hello World!\n\n".len();
    let fst_end = fst_start + shortcode_placeholder().len();
    let snd_start = fst_end + 2;
    let snd_end = snd_start + shortcode_placeholder().len();

    assert_eq!(
        fetch_shortcodes(test_str),
        (
            format!(
                r#"
# Hello World!

{0}

{0}"#,
                shortcode_placeholder()
            ),
            vec![
                ShortcodeContext::new(
                    "abc",
                    vec![("wow", ArgValue::Boolean(true))],
                    Span::new(fst_start, fst_end),
                    None
                ),
                ShortcodeContext::new(
                    "bodied",
                    vec![("def", ArgValue::Text("Hello!".to_string()))],
                    Span::new(snd_start, snd_end),
                    Some(String::from("The inside of this body"))
                )
            ]
        )
    );
}

#[test]
fn shortcode_in_body_requirement() {
    let test_str = "{% a() %}{{ b() }}{% end %}";

    assert_eq!(
        fetch_shortcodes(test_str),
        (
            String::from(shortcode_placeholder()),
            vec![ShortcodeContext::new(
                "a",
                vec![],
                Span::new(0, shortcode_placeholder().len()),
                Some(String::from("{{ b() }}"))
            )]
        )
    );

    let test_str = "{% a() %}{% b() %}{{ c() }}{% end %}{% end %}";

    assert_eq!(
        fetch_shortcodes(test_str),
        (
            format!("{}{{% end %}}", shortcode_placeholder()),
            vec![ShortcodeContext::new(
                "a",
                vec![],
                Span::new(0, shortcode_placeholder().len()),
                Some(String::from("{% b() %}{{ c() }}"))
            )]
        )
    );
}

#[test]
fn embedding_bodies() {
    let test_str = "{% a() %}{% a() %}Wow!{% end %}{% end %}";

    assert_eq!(
        fetch_shortcodes(test_str),
        (
            format!("{}{{% end %}}", shortcode_placeholder()),
            vec![ShortcodeContext::new(
                "a",
                vec![],
                Span::new(0, shortcode_placeholder().len()),
                Some(String::from("{% a() %}Wow!"))
            )]
        )
    );
}

#[test]
fn sequential_bodies() {
    let test_str = "{% a() %}First body!{% end %}{% a() %}Second body!{% end %}";

    assert_eq!(
        fetch_shortcodes(test_str),
        (
            format!("{0}{0}", shortcode_placeholder()),
            vec![
                ShortcodeContext::new(
                    "a",
                    vec![],
                    Span::new(0, shortcode_placeholder().len()),
                    Some(String::from("First body!"))
                ),
                ShortcodeContext::new(
                    "a",
                    vec![],
                    Span::new(
                        shortcode_placeholder().len(),
                        2 * shortcode_placeholder().len()
                    ),
                    Some(String::from("Second body!"))
                )
            ]
        )
    );
}
