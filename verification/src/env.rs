//! The configuration of the application, as read from jj's config.
use vstd::prelude::*;

use crate::keybinds::KeybindsConfig;
use crate::keybinds::Shortcut;
use crate::text::copy_string;
use crate::text::remove_prefix;
use crate::text::remove_suffix;
use crate::text::trim;
use crate::text::trim_string;

verus! {

/// How diffs are shown.
#[derive(Debug, PartialEq, Eq, Hash)]
pub enum DiffFormat {
    ColorWords,
    Git,
    DiffTool(Option<String>),
    Summary,
    Stat,
}

/// The mathematical value of a [DiffFormat].
pub enum DiffFormatView {
    ColorWords,
    Git,
    DiffTool(Option<Seq<char>>),
    Summary,
    Stat,
}

/// The text of an optional string.
pub open spec fn opt_text(s: Option<String>) -> Option<Seq<char>> {
    match s {
        Some(t) => Some(t@),
        None => None,
    }
}

/// A copy of an optional string.
pub fn copy_opt(s: &Option<String>) -> (res: Option<String>)
    ensures
        opt_text(res) == opt_text(*s),
{
    match s {
        Some(t) => Some(copy_string(t.as_str())),
        None => None,
    }
}

impl View for DiffFormat {
    type V = DiffFormatView;

    open spec fn view(&self) -> DiffFormatView {
        match self {
            DiffFormat::ColorWords => DiffFormatView::ColorWords,
            DiffFormat::Git => DiffFormatView::Git,
            DiffFormat::DiffTool(t) => DiffFormatView::DiffTool(opt_text(*t)),
            DiffFormat::Summary => DiffFormatView::Summary,
            DiffFormat::Stat => DiffFormatView::Stat,
        }
    }
}

impl Clone for DiffFormat {
    fn clone(&self) -> (res: Self)
        ensures
            res@ == self@,
    {
        match self {
            DiffFormat::ColorWords => DiffFormat::ColorWords,
            DiffFormat::Git => DiffFormat::Git,
            DiffFormat::DiffTool(t) => DiffFormat::DiffTool(copy_opt(t)),
            DiffFormat::Summary => DiffFormat::Summary,
            DiffFormat::Stat => DiffFormat::Stat,
        }
    }
}

/// The format that the toggle key switches to: color-words, then git, then
/// the diff tool when one is configured, then back to color-words.
pub open spec fn spec_next_format(current: DiffFormatView, diff_tool: Option<Option<Seq<char>>>) -> DiffFormatView {
    match current {
        DiffFormatView::ColorWords => DiffFormatView::Git,
        DiffFormatView::Git => match diff_tool {
            Some(tool) => DiffFormatView::DiffTool(tool),
            None => DiffFormatView::ColorWords,
        },
        _ => DiffFormatView::ColorWords,
    }
}

/// The text of an optional optional string.
pub open spec fn opt_opt_text(s: Option<Option<String>>) -> Option<Option<Seq<char>>> {
    match s {
        Some(t) => Some(opt_text(t)),
        None => None,
    }
}

impl DiffFormat {
    /// The format that the toggle key switches to.
    pub fn get_next(&self, diff_tool: Option<Option<String>>) -> (res: DiffFormat)
        ensures
            res@ == spec_next_format(self@, opt_opt_text(diff_tool)),
    {
        match self {
            DiffFormat::ColorWords => DiffFormat::Git,
            DiffFormat::Git => {
                if let Some(diff_tool) = diff_tool {
                    DiffFormat::DiffTool(diff_tool)
                } else {
                    DiffFormat::ColorWords
                }
            },
            _ => DiffFormat::ColorWords,
        }
    }
}

impl Default for DiffFormat {
    fn default() -> (res: Self)
        ensures
            res@ == DiffFormatView::ColorWords,
    {
        DiffFormat::ColorWords
    }
}

/// How the two panes are laid out.
#[derive(Clone, Copy, Debug, PartialEq, Eq)]
pub enum JJLayout {
    Horizontal,
    Vertical,
}

impl Default for JJLayout {
    fn default() -> (res: Self)
        ensures
            res == JJLayout::Horizontal,
    {
        JJLayout::Horizontal
    }
}

/// A color of the terminal.
#[verifier::external_type_specification]
#[verifier::external_body]
pub struct ExColor(ratatui::style::Color);

/// `Color` is `Copy`: its `clone` gives the same color.
pub assume_specification[ <ratatui::style::Color as Clone>::clone ](c: &ratatui::style::Color) -> (res: ratatui::style::Color)
    ensures
        res == *c,
;

/// A value of a TOML document.
#[verifier::external_type_specification]
#[verifier::external_body]
pub struct ExTomlValue(toml::Value);

/// The clone of a TOML value (`toml::Value::clone`); nothing is stated of
/// it, as the library only tests whether a value is there.
pub assume_specification[ <toml::Value as Clone>::clone ](v: &toml::Value) -> toml::Value;

/// The terminal color with the given red, green and blue components.
pub uninterp spec fn rgb(r: u8, g: u8, b: u8) -> ratatui::style::Color;

/// The color with the given red, green and blue components
/// (`ratatui::style::Color::Rgb`): the result is named [rgb], a function of
/// the three components; nothing more is stated of the value, which the
/// library only carries.
#[verifier::external_body]
fn rgb_color(r: u8, g: u8, b: u8) -> (res: ratatui::style::Color)
    ensures
        res == rgb(r, g, b),
{
    ratatui::style::Color::Rgb(r, g, b)
}

/// The text MiniJinja renders from `template` with `desc` bound to the
/// description, in the environment of the description transforms; or the
/// text of the error it reports.
pub uninterp spec fn rendered_template(template: Seq<char>, desc: Seq<char>) -> Result<Seq<char>, Seq<char>>;

/// The text of a result of strings.
pub open spec fn result_text(r: Result<String, String>) -> Result<Seq<char>, Seq<char>> {
    match r {
        Ok(s) => Ok(s@),
        Err(e) => Err(e@),
    }
}

/// Renders `template` with `minijinja::Environment::render_str`, with
/// `desc` bound to `description`, in an environment that adds the filters
/// `removeprefix` and `removesuffix` (the verified [remove_prefix] and
/// [remove_suffix]) to MiniJinja's builtins. The error is MiniJinja's
/// message. The result is a function of the template and the description
/// alone: it is named [rendered_template]; nothing more is stated of it.
#[verifier::external_body]
fn render_template(template: &str, description: &str) -> (res: Result<String, String>)
    ensures
        result_text(res) == rendered_template(template@, description@),
{
    let mut env = minijinja::Environment::new();
    env.add_filter("removeprefix", |s: &str, prefix: &str| remove_prefix(s, prefix));
    env.add_filter("removesuffix", |s: &str, suffix: &str| remove_suffix(s, suffix));
    let mut ctx = std::collections::BTreeMap::new();
    ctx.insert("desc", description);
    match env.render_str(template, ctx) {
        Ok(text) => Ok(text),
        Err(err) => Err(err.to_string()),
    }
}

/// A description transform that failed to render: its name and the reason.
#[derive(Debug)]
pub struct TransformError {
    pub name: String,
    pub detail: String,
}

impl TransformError {
    /// The message shown to the user: which transform failed, and why.
    pub fn message(&self) -> (res: String)
        ensures
            res@ == "Failed rendering the \""@ + self.name@ + "\" description transform: "@ + self.detail@,
    {
        let mut res = String::new();
        res.push_str("Failed rendering the \"");
        res.push_str(self.name.as_str());
        res.push_str("\" description transform: ");
        res.push_str(self.detail.as_str());
        res
    }
}

/// A user-defined rewrite of a change's description, bound to its own key.
/// The template is a MiniJinja template rendered with the current
/// description in scope as `desc`.
#[derive(Debug, Clone)]
pub struct DescriptionTransform {
    pub name: String,
    pub key: Shortcut,
    pub template: String,
}

/// What a transform gives for a rendering: the rendered text trimmed, or the
/// error naming the transform.
pub open spec fn transform_result(name: Seq<char>, rendered: Result<Seq<char>, Seq<char>>) -> Result<Seq<char>, (Seq<char>, Seq<char>)> {
    match rendered {
        Ok(text) => Ok(trim(text)),
        Err(detail) => Err((name, detail)),
    }
}

/// The view of a transform's outcome.
pub open spec fn transform_view(r: Result<String, TransformError>) -> Result<Seq<char>, (Seq<char>, Seq<char>)> {
    match r {
        Ok(s) => Ok(s@),
        Err(e) => Err((e.name@, e.detail@)),
    }
}

/// The outcome of a transform named `name` from the rendering of its
/// template: the text trimmed (templates laid out over several lines pick up
/// the newlines around their blocks), or the error naming the transform.
pub fn finish_transform(name: &str, rendered: Result<String, String>) -> (res: Result<String, TransformError>)
    ensures
        transform_view(res) == transform_result(name@, result_text(rendered)),
{
    match rendered {
        Ok(text) => Ok(trim_string(text.as_str())),
        Err(detail) => Err(TransformError { name: copy_string(name), detail }),
    }
}

impl DescriptionTransform {
    /// Render the template with `description` in scope as `desc`, trimmed.
    pub fn apply(&self, description: &str) -> (res: Result<String, TransformError>)
        ensures
            transform_view(res) == transform_result(self.name@, rendered_template(self.template@, description@)),
    {
        let rendered = render_template(self.template.as_str(), description);
        finish_transform(self.name.as_str(), rendered)
    }
}

/// The section of jj's configuration that belongs to this application.
#[derive(Debug, Clone)]
pub struct JjConfigJjscope {
    pub highlight_color: ratatui::style::Color,
    pub diff_format: Option<DiffFormat>,
    pub diff_tool: Option<String>,
    pub bookmark_template: Option<String>,
    pub layout: JJLayout,
    pub layout_percent: u16,
    pub keybinds: Option<KeybindsConfig>,
    pub description_transforms: Vec<DescriptionTransform>,
}

impl Default for JjConfigJjscope {
    fn default() -> (res: Self)
        ensures
            res.highlight_color == rgb(0x32, 0x32, 0x64),
            res.diff_format is None,
            res.diff_tool is None,
            res.bookmark_template is None,
            res.layout == JJLayout::Horizontal,
            res.layout_percent == 50,
            res.keybinds is None,
            res.description_transforms@.len() == 0,
    {
        JjConfigJjscope {
            highlight_color: rgb_color(0x32, 0x32, 0x64),
            diff_format: None,
            diff_tool: None,
            bookmark_template: None,
            layout: JJLayout::Horizontal,
            layout_percent: 50,
            keybinds: None,
            description_transforms: Vec::new(),
        }
    }
}

/// The `ui.diff` section of jj's configuration.
#[derive(Debug, Clone)]
pub struct JjConfigUiDiff {
    pub format: Option<DiffFormat>,
    pub tool: Option<toml::Value>,
}

/// The `ui` section of jj's configuration.
#[derive(Debug, Clone)]
pub struct JjConfigUi {
    pub diff: JjConfigUiDiff,
}

/// The `templates` section of jj's configuration.
#[derive(Debug, Clone)]
pub struct JjConfigTemplates {
    pub git_push_bookmark: Option<String>,
}

/// The parts of jj's configuration that this application reads.
#[derive(Debug, Clone)]
pub struct JjConfig {
    pub jjscope: JjConfigJjscope,
    pub ui: JjConfigUi,
    pub templates: JjConfigTemplates,
}

/// The view of an optional diff format.
pub open spec fn opt_format(f: Option<DiffFormat>) -> Option<DiffFormatView> {
    match f {
        Some(d) => Some(d@),
        None => None,
    }
}

/// The diff tool of a configuration: the tool named in this application's
/// section; else, where jj's `ui.diff.tool` is set, jj's own choice (`None`
/// inside); else none.
pub open spec fn spec_diff_tool(c: JjConfig) -> Option<Option<Seq<char>>> {
    match c.jjscope.diff_tool {
        Some(t) => Some(Some(t@)),
        None => if c.ui.diff.tool is Some { Some(None) } else { None },
    }
}

/// The diff format of a configuration: this application's, else jj's, else
/// the diff tool, else color-words.
pub open spec fn spec_diff_format(c: JjConfig) -> DiffFormatView {
    match opt_format(c.jjscope.diff_format) {
        Some(f) => f,
        None => match opt_format(c.ui.diff.format) {
            Some(f) => f,
            None => match spec_diff_tool(c) {
                Some(t) => DiffFormatView::DiffTool(t),
                None => DiffFormatView::ColorWords,
            },
        },
    }
}

/// The application's own diff format wins over jj's `ui.diff.format`; jj's
/// is used only where the application sets none; with neither, the diff
/// tool (the application's, else jj's `ui.diff.tool`) is used, and with no
/// tool either, color-words.
pub proof fn lemma_diff_format_precedence(c: JjConfig)
    ensures
        c.jjscope.diff_format matches Some(f) ==> spec_diff_format(c) == f@,
        c.jjscope.diff_format is None ==> (c.ui.diff.format matches Some(f) ==> spec_diff_format(c) == f@),
        (c.jjscope.diff_format is None && c.ui.diff.format is None) ==> (c.jjscope.diff_tool matches Some(t)
            ==> spec_diff_format(c) == DiffFormatView::DiffTool(Some(t@))),
        (c.jjscope.diff_format is None && c.ui.diff.format is None && c.jjscope.diff_tool is None
            && c.ui.diff.tool is None) ==> spec_diff_format(c) == DiffFormatView::ColorWords,
        c.jjscope.diff_tool matches Some(t) ==> spec_diff_tool(c) == Some(Some(t@)),
        (c.jjscope.diff_tool is None && c.ui.diff.tool is Some) ==> spec_diff_tool(c) == Some(None::<Seq<char>>),
        (c.jjscope.diff_tool is None && c.ui.diff.tool is None) ==> spec_diff_tool(c) is None,
{
}

/// The template that names new bookmarks: this application's, else jj's
/// `templates.git_push_bookmark`, else jj's default.
pub open spec fn spec_bookmark_template(c: JjConfig) -> Seq<char> {
    match c.jjscope.bookmark_template {
        Some(t) => t@,
        None => match c.templates.git_push_bookmark {
            Some(t) => t@,
            None => "'push-' ++ change_id.short()"@,
        },
    }
}

/// The application's own bookmark template wins over jj's
/// `templates.git_push_bookmark`, which is used only where the application
/// sets none.
pub proof fn lemma_bookmark_template_precedence(c: JjConfig)
    ensures
        c.jjscope.bookmark_template matches Some(t) ==> spec_bookmark_template(c) == t@,
        c.jjscope.bookmark_template is None ==> (c.templates.git_push_bookmark matches Some(t)
            ==> spec_bookmark_template(c) == t@),
{
}

fn copy_format(f: &Option<DiffFormat>) -> (res: Option<DiffFormat>)
    ensures
        opt_format(res) == opt_format(*f),
{
    match f {
        Some(d) => Some(d.clone()),
        None => None,
    }
}

impl Default for JjConfig {
    fn default() -> (res: Self)
        ensures
            res.jjscope.highlight_color == rgb(0x32, 0x32, 0x64),
            res.jjscope.diff_format is None,
            res.jjscope.diff_tool is None,
            res.jjscope.bookmark_template is None,
            res.jjscope.layout == JJLayout::Horizontal,
            res.jjscope.layout_percent == 50,
            res.jjscope.keybinds is None,
            res.jjscope.description_transforms@.len() == 0,
            res.ui.diff.format is None,
            res.ui.diff.tool is None,
            res.templates.git_push_bookmark is None,
    {
        JjConfig {
            jjscope: JjConfigJjscope::default(),
            ui: JjConfigUi { diff: JjConfigUiDiff { format: None, tool: None } },
            templates: JjConfigTemplates { git_push_bookmark: None },
        }
    }
}

impl JjConfig {
    /// The diff format to show diffs in first.
    pub fn diff_format(&self) -> (res: DiffFormat)
        ensures
            res@ == spec_diff_format(*self),
            self.jjscope.diff_format matches Some(f) ==> res@ == f@,
            self.jjscope.diff_format is None ==> (self.ui.diff.format matches Some(f) ==> res@ == f@),
    {
        proof {
            lemma_diff_format_precedence(*self);
        }
        if let Some(f) = copy_format(&self.jjscope.diff_format) {
            return f;
        }
        if let Some(f) = copy_format(&self.ui.diff.format) {
            return f;
        }
        match self.diff_tool() {
            Some(t) => DiffFormat::DiffTool(t),
            None => DiffFormat::ColorWords,
        }
    }

    /// The configured diff tool.
    pub fn diff_tool(&self) -> (res: Option<Option<String>>)
        ensures
            opt_opt_text(res) == spec_diff_tool(*self),
    {
        match &self.jjscope.diff_tool {
            Some(t) => Some(Some(copy_string(t.as_str()))),
            None => {
                if self.ui.diff.tool.is_some() {
                    Some(None)
                } else {
                    None
                }
            },
        }
    }

    /// The color of the selected line.
    pub fn highlight_color(&self) -> (res: ratatui::style::Color)
        ensures
            res == self.jjscope.highlight_color,
    {
        self.jjscope.highlight_color
    }

    /// The template that names new bookmarks.
    pub fn bookmark_template(&self) -> (res: String)
        ensures
            res@ == spec_bookmark_template(*self),
    {
        match &self.jjscope.bookmark_template {
            Some(t) => copy_string(t.as_str()),
            None => match &self.templates.git_push_bookmark {
                Some(t) => copy_string(t.as_str()),
                None => copy_string("'push-' ++ change_id.short()"),
            },
        }
    }

    /// How the two panes are laid out.
    pub fn layout(&self) -> (res: JJLayout)
        ensures
            res == self.jjscope.layout,
    {
        self.jjscope.layout
    }

    /// The share of the width (or height) of the first pane, in percent.
    pub fn layout_percent(&self) -> (res: u16)
        ensures
            res == self.jjscope.layout_percent,
    {
        self.jjscope.layout_percent
    }

    /// The configured key bindings.
    pub fn keybinds(&self) -> (res: Option<&KeybindsConfig>)
        ensures
            res == (match self.jjscope.keybinds {
                Some(k) => Some(&k),
                None => None::<&KeybindsConfig>,
            }),
    {
        match &self.jjscope.keybinds {
            Some(k) => Some(k),
            None => None,
        }
    }

    /// The configured description transforms.
    pub fn description_transforms(&self) -> (res: &[DescriptionTransform])
        ensures
            res@ == self.jjscope.description_transforms@,
    {
        self.jjscope.description_transforms.as_slice()
    }
}

/// The environment of the application: jj's configuration, the root of the
/// repository, the revset to show and the jj program.
#[derive(Debug, Clone)]
pub struct Env {
    pub jj_config: JjConfig,
    pub root: String,
    pub default_revset: Option<String>,
    pub jj_bin: String,
}

} // verus!
