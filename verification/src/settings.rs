use vstd::prelude::*;

verus! {

pub fn default_true() -> (out: bool)
    ensures
        out,
{
    true
}

pub fn default_editor_font_size() -> (out: u16)
    ensures
        out == 16,
{
    16
}

pub fn default_editor_font_family() -> (out: String)
    ensures
        out@ == "IBM Plex Mono"@,
{
    "IBM Plex Mono".to_string()
}

pub fn default_global_capture_shortcut() -> (out: String)
    ensures
        out@ == "CommandOrControl+Shift+Space"@,
{
    "CommandOrControl+Shift+Space".to_string()
}

pub fn default_inbox_dir() -> (out: String)
    ensures
        out@ == "inbox"@,
{
    "inbox".to_string()
}

pub fn default_calm_ui_enabled() -> (out: bool)
    ensures
        out,
{
    true
}

pub fn default_calm_ui_focus_mode() -> (out: bool)
    ensures
        out,
{
    true
}

pub fn default_focus_typewriter_scrolling_enabled() -> (out: bool)
    ensures
        out,
{
    true
}

pub fn default_focus_dimming_mode() -> (out: FocusDimmingMode)
    ensures
        out == FocusDimmingMode::Sentence,
{
    FocusDimmingMode::Sentence
}

/// What is dimmed in focus mode.
#[derive(Debug, Clone, Copy, PartialEq, Eq, Structural)]
pub enum FocusDimmingMode {
    Off,
    Sentence,
    Paragraph,
}

impl Default for FocusDimmingMode {
    fn default() -> (out: Self)
        ensures
            out == FocusDimmingMode::Sentence,
    {
        FocusDimmingMode::Sentence
    }
}

/// The categories of style patterns that are switched on.
#[derive(Debug, Clone, Copy, PartialEq, Eq, Structural)]
pub struct StyleCheckCategorySettings {
    pub filler: bool,
    pub redundancy: bool,
    pub cliche: bool,
}

impl Default for StyleCheckCategorySettings {
    fn default() -> (out: Self)
        ensures
            out.filler && out.redundancy && out.cliche,
    {
        StyleCheckCategorySettings { filler: true, redundancy: true, cliche: true }
    }
}

/// How a style match is marked in the editor.
#[derive(Debug, Clone, Copy, PartialEq, Eq, Structural)]
pub enum StyleMarkerStyle {
    Highlight,
    Underline,
}

impl Default for StyleMarkerStyle {
    fn default() -> (out: Self)
        ensures
            out == StyleMarkerStyle::Highlight,
    {
        StyleMarkerStyle::Highlight
    }
}

/// A style pattern of the user's own.
#[derive(Debug, Clone, PartialEq, Eq)]
pub struct StyleCheckPattern {
    pub text: String,
    pub category: String,
    pub replacement: Option<String>,
}

/// Settings of the style check.
#[derive(Debug, Clone, PartialEq, Eq)]
pub struct StyleCheckSettings {
    pub enabled: bool,
    pub categories: StyleCheckCategorySettings,
    pub custom_patterns: Vec<StyleCheckPattern>,
    pub marker_style: StyleMarkerStyle,
}

impl Default for StyleCheckSettings {
    fn default() -> (out: Self)
        ensures
            !out.enabled,
            out.categories.filler && out.categories.redundancy && out.categories.cliche,
            out.custom_patterns@.len() == 0,
            out.marker_style == StyleMarkerStyle::Highlight,
    {
        StyleCheckSettings {
            enabled: false,
            categories: StyleCheckCategorySettings { filler: true, redundancy: true, cliche: true },
            custom_patterns: Vec::new(),
            marker_style: StyleMarkerStyle::Highlight,
        }
    }
}

/// Settings of the window's layout and the editor.
#[derive(Debug, Clone, PartialEq, Eq)]
pub struct UiLayoutSettings {
    pub sidebar_collapsed: bool,
    pub top_bars_collapsed: bool,
    pub status_bar_collapsed: bool,
    pub reduce_motion: bool,
    pub line_numbers_visible: bool,
    pub text_wrapping_enabled: bool,
    pub syntax_highlighting_enabled: bool,
    pub editor_font_size: u16,
    pub editor_font_family: String,
    pub calm_ui_enabled: bool,
    pub calm_ui_focus_mode: bool,
    pub focus_typewriter_scrolling_enabled: bool,
    pub focus_dimming_mode: FocusDimmingMode,
    /// Whether a new location gets a guide to Markdown as its `README.md`.
    pub create_readme_in_new_locations: bool,
}

impl Default for UiLayoutSettings {
    fn default() -> (out: Self)
        ensures
            !out.sidebar_collapsed && !out.top_bars_collapsed && !out.status_bar_collapsed,
            !out.reduce_motion,
            out.line_numbers_visible && out.text_wrapping_enabled
                && out.syntax_highlighting_enabled,
            out.editor_font_size == 16,
            out.editor_font_family@ == "IBM Plex Mono"@,
            out.calm_ui_enabled && out.calm_ui_focus_mode
                && out.focus_typewriter_scrolling_enabled,
            out.focus_dimming_mode == FocusDimmingMode::Sentence,
            out.create_readme_in_new_locations,
    {
        UiLayoutSettings {
            sidebar_collapsed: false,
            top_bars_collapsed: false,
            status_bar_collapsed: false,
            reduce_motion: false,
            line_numbers_visible: true,
            text_wrapping_enabled: true,
            syntax_highlighting_enabled: true,
            editor_font_size: default_editor_font_size(),
            editor_font_family: default_editor_font_family(),
            calm_ui_enabled: default_calm_ui_enabled(),
            calm_ui_focus_mode: default_calm_ui_focus_mode(),
            focus_typewriter_scrolling_enabled: default_focus_typewriter_scrolling_enabled(),
            focus_dimming_mode: default_focus_dimming_mode(),
            create_readme_in_new_locations: default_true(),
        }
    }
}

/// What a quick capture does with its text.
#[derive(Debug, Clone, Copy, PartialEq, Eq, Structural)]
pub enum CaptureMode {
    QuickNote,
    WritingSession,
    Append,
}

impl Default for CaptureMode {
    fn default() -> (out: Self)
        ensures
            out == CaptureMode::QuickNote,
    {
        CaptureMode::QuickNote
    }
}

/// A document as settings and sessions name it.
#[derive(Debug, Clone, PartialEq, Eq)]
pub struct CaptureDocRef {
    pub location_id: i64,
    pub rel_path: String,
}

/// Settings of the global quick capture.
#[derive(Debug, Clone, PartialEq, Eq)]
pub struct GlobalCaptureSettings {
    pub enabled: bool,
    pub shortcut: String,
    pub paused: bool,
    pub default_mode: CaptureMode,
    pub target_location_id: Option<i64>,
    pub inbox_relative_dir: String,
    pub append_target: Option<CaptureDocRef>,
    pub close_after_save: bool,
    pub show_tray_icon: bool,
    pub last_capture_target: Option<String>,
}

impl Default for GlobalCaptureSettings {
    fn default() -> (out: Self)
        ensures
            out.enabled && !out.paused && out.close_after_save && out.show_tray_icon,
            out.shortcut@ == "CommandOrControl+Shift+Space"@,
            out.default_mode == CaptureMode::QuickNote,
            out.target_location_id is None,
            out.inbox_relative_dir@ == "inbox"@,
            out.append_target is None,
            out.last_capture_target is None,
    {
        GlobalCaptureSettings {
            enabled: true,
            shortcut: default_global_capture_shortcut(),
            paused: false,
            default_mode: CaptureMode::QuickNote,
            target_location_id: None,
            inbox_relative_dir: default_inbox_dir(),
            append_target: None,
            close_after_save: true,
            show_tray_icon: true,
            last_capture_target: None,
        }
    }
}

/// The guide to Markdown that a new location gets as its `README.md`.
pub const README_TEMPLATE: &'static str =
    "# Markdown Guide for Writer\n\nWriter keeps your documents as plain Markdown files in the folders you choose.\n\n## Headings\n\n```markdown\n# Heading 1\n## Heading 2\n### Heading 3\n```\n\n## Emphasis\n\n```markdown\n*italic* and **bold** and ~~struck through~~\n```\n\n## Lists\n\n```markdown\n- an item\n- another item\n\n1. first\n2. second\n\n- [ ] a task\n- [x] a finished task\n```\n\n## Links and images\n\n```markdown\n[a link](https://example.com)\n![an image](picture.png)\n```\n\n## Quotes and code\n\n```markdown\n> a quotation\n\n`inline code`\n```\n\n## Tables\n\n```markdown\n| Column | Column |\n|--------|--------|\n| cell   | cell   |\n```\n\n## Front matter\n\nA document may start with front matter between `---` lines:\n\n```markdown\n---\ntitle: My Document\nauthor: Me\n---\n```\n";

/// The guide to Markdown.
pub fn get_markdown_help() -> (out: &'static str)
    ensures
        out@ == README_TEMPLATE@,
{
    README_TEMPLATE
}

} // verus!
