use blazingjj::env::DescriptionTransform;
use blazingjj::env::DiffFormat;
use blazingjj::env::JjConfig;
use blazingjj::keybinds::Shortcut;

/// The toggle from the README: archive an unarchived change, unarchive an
/// archived one.
const TOGGLE: &str = r#"
    {%- if desc is startingwith("archived: ") -%}
      {{ desc | removeprefix("archived: ") }}
    {%- else -%}
      archived: {{ desc }}
    {%- endif -%}
"#;

fn transform(template: &str) -> DescriptionTransform {
    DescriptionTransform {
        name: "test".to_string(),
        key: Shortcut::parse("shift+g").unwrap(),
        template: template.to_string(),
    }
}

fn apply(template: &str, description: &str) -> String {
    transform(template).apply(description).unwrap()
}

#[test]
fn description_transform_apply() {
    // `desc` holds the description being rewritten.
    assert_eq!(
        apply("archived: {{ desc }}", "my change"),
        "archived: my change"
    );
    // A template may use it more than once, or not at all.
    assert_eq!(apply("{{ desc }} / {{ desc }}", "x"), "x / x");
    assert_eq!(apply("fixed", "my change"), "fixed");
    // Jinja syntax in the description is inserted verbatim, not re-rendered.
    assert_eq!(
        apply("archived: {{ desc }}", "a {{ desc }} b"),
        "archived: a {{ desc }} b"
    );
    // Multi-line descriptions are preserved.
    assert_eq!(
        apply("archived: {{ desc }}", "subject\n\nbody"),
        "archived: subject\n\nbody"
    );
}

#[test]
fn description_transform_toggle() {
    assert_eq!(apply(TOGGLE, "my change"), "archived: my change");
    assert_eq!(apply(TOGGLE, "archived: my change"), "my change");
    // Toggling twice is the identity.
    assert_eq!(apply(TOGGLE, &apply(TOGGLE, "my change")), "my change");
}

#[test]
fn description_transform_trims_result() {
    assert_eq!(
        apply(
            "\n  {% if true %}\n  archived: {{ desc }}\n  {% endif %}\n",
            "x"
        ),
        "archived: x"
    );
    // Interior whitespace is left alone.
    assert_eq!(apply("{{ desc }}", "subject\n\nbody"), "subject\n\nbody");
}

#[test]
fn description_transform_extra_filters() {
    assert_eq!(
        apply(r#"{{ desc | removeprefix("wip: ") }}"#, "wip: x"),
        "x"
    );
    // A missing affix leaves the description alone.
    assert_eq!(apply(r#"{{ desc | removeprefix("wip: ") }}"#, "x"), "x");
    assert_eq!(
        apply(r#"{{ desc | removesuffix(" (wip)") }}"#, "x (wip)"),
        "x"
    );
    assert_eq!(apply(r#"{{ desc | removesuffix(" (wip)") }}"#, "x"), "x");
    // Unlike `| replace`, only the affix is removed.
    assert_eq!(
        apply(r#"{{ desc | removeprefix("a: ") }}"#, "a: keep a: this"),
        "keep a: this"
    );
}

#[test]
fn description_transform_errors_are_reported() {
    // A syntax error surfaces as an error rather than a mangled description.
    let err = transform("{{ desc").apply("x").unwrap_err();
    assert!(
        err.message().contains("syntax error"),
        "unexpected error: {}",
        err.message()
    );
    // So does calling something that does not exist.
    assert!(transform("{{ desc.bogus() }}").apply("x").is_err());
    // The message names the transform, so the popup identifies which one failed.
    assert!(
        err.message().contains("test"),
        "unexpected error: {}",
        err.message()
    );
}

#[test]
fn default_config_reads_defaults() {
    let config = JjConfig::default();
    assert!(config.description_transforms().is_empty());
    assert_eq!(config.diff_format(), DiffFormat::ColorWords);
    assert_eq!(config.diff_tool(), None);
    assert_eq!(config.bookmark_template(), "'push-' ++ change_id.short()");
    assert_eq!(config.layout_percent(), 50);
}

#[test]
fn diff_format_falls_back_to_the_tool() {
    let mut config = JjConfig::default();
    config.jjscope.diff_tool = Some("difft".to_owned());
    assert_eq!(config.diff_tool(), Some(Some("difft".to_owned())));
    assert_eq!(config.diff_format(), DiffFormat::DiffTool(Some("difft".to_owned())));
    config.jjscope.diff_format = Some(DiffFormat::Git);
    assert_eq!(config.diff_format(), DiffFormat::Git);
    config.templates.git_push_bookmark = Some("'x-' ++ change_id".to_owned());
    assert_eq!(config.bookmark_template(), "'x-' ++ change_id");
}

#[test]
fn diff_format_toggle_cycles() {
    let tool = Some(Some("difft".to_owned()));
    let f = DiffFormat::ColorWords.get_next(tool.clone());
    assert_eq!(f, DiffFormat::Git);
    let f = f.get_next(tool.clone());
    assert_eq!(f, DiffFormat::DiffTool(Some("difft".to_owned())));
    assert_eq!(f.get_next(tool), DiffFormat::ColorWords);
    assert_eq!(DiffFormat::Git.get_next(None), DiffFormat::ColorWords);
}

#[test]
fn default_config_values() {
    let config = JjConfig::default();
    assert_eq!(
        config.highlight_color(),
        ratatui::style::Color::Rgb(0x32, 0x32, 0x64)
    );
    assert_eq!(config.layout_percent(), 50);
    assert_eq!(config.diff_format(), DiffFormat::ColorWords);
    assert_eq!(config.bookmark_template(), "'push-' ++ change_id.short()");
    assert!(config.description_transforms().is_empty());
}
