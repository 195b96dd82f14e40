//! Color roles, output settings, and theme selection.
//!
//! The structures here mirror what a configuration file can set. Loading
//! the file itself is left to the program around the library; the library
//! only works with the plain values.

use vstd::prelude::*;
use crate::text::{ascii_only, chars_of, is_ascii_seq, lemma_strip_ansi_plain, no_esc, str_eq, strip_ansi, string_of, to_lower_char};

verus! {

/// The color name used for each output role. An empty name means the role
/// is printed unstyled.
#[derive(Debug)]
pub struct ColorConfig {
    pub subject: String,
    pub predicate: String,
    pub object: String,
    pub literal: String,
    pub prefix: String,
    pub base: String,
    pub graph: String,
}

/// The two color sets and whether to pick between them by detecting the
/// terminal background.
#[derive(Debug)]
pub struct ThemeConfig {
    pub auto_detect: bool,
    pub dark_theme: ColorConfig,
    pub light_theme: ColorConfig,
}

/// Output shape settings.
#[derive(Debug)]
pub struct OutputConfig {
    pub expand: bool,
    pub pager: bool,
    pub auto_pager: bool,
    pub auto_pager_threshold: usize,
}

/// Everything a configuration file can set.
#[derive(Debug)]
pub struct Config {
    pub colors: ColorConfig,
    pub output: OutputConfig,
    pub theme: ThemeConfig,
}

/// Whether paging turns on automatically for long output when nothing
/// says otherwise.
pub fn default_auto_pager() -> (r: bool)
    ensures
        r == true,
{
    true
}

impl Clone for ColorConfig {
    /// Cloning preserves every color name.
    fn clone(&self) -> (r: Self)
        ensures
            r == *self,
    {
        ColorConfig {
            subject: self.subject.clone(),
            predicate: self.predicate.clone(),
            object: self.object.clone(),
            literal: self.literal.clone(),
            prefix: self.prefix.clone(),
            base: self.base.clone(),
            graph: self.graph.clone(),
        }
    }
}

/// The color set used on dark backgrounds.
pub fn dark_colors() -> (r: ColorConfig)
    ensures
        r.subject@ == "blue"@,
        r.predicate@ == "green"@,
        r.object@ == "white"@,
        r.literal@ == "red"@,
        r.prefix@ == "yellow"@,
        r.base@ == "yellow"@,
        r.graph@ == "yellow"@,
{
    ColorConfig {
        subject: String::from_str("blue"),
        predicate: String::from_str("green"),
        object: String::from_str("white"),
        literal: String::from_str("red"),
        prefix: String::from_str("yellow"),
        base: String::from_str("yellow"),
        graph: String::from_str("yellow"),
    }
}

/// The color set used on light backgrounds: darker shades, partly given
/// as hex codes.
pub fn light_colors() -> (r: ColorConfig)
    ensures
        r.subject@ == "blue"@,
        r.predicate@ == "#006400"@,
        r.object@ == "black"@,
        r.literal@ == "#8B0000"@,
        r.prefix@ == "#B8860B"@,
        r.base@ == "#B8860B"@,
        r.graph@ == "#B8860B"@,
{
    ColorConfig {
        subject: String::from_str("blue"),
        predicate: String::from_str("#006400"),
        object: String::from_str("black"),
        literal: String::from_str("#8B0000"),
        prefix: String::from_str("#B8860B"),
        base: String::from_str("#B8860B"),
        graph: String::from_str("#B8860B"),
    }
}

impl Default for ColorConfig {
    /// The dark color set.
    fn default() -> (r: Self)
        ensures
            r.subject@ == "blue"@,
            r.predicate@ == "green"@,
            r.object@ == "white"@,
            r.literal@ == "red"@,
            r.prefix@ == "yellow"@,
            r.base@ == "yellow"@,
            r.graph@ == "yellow"@,
    {
        dark_colors()
    }
}

impl Default for ThemeConfig {
    /// Background detection on, with the stock dark and light sets.
    fn default() -> (r: Self)
        ensures
            r.auto_detect == true,
            r.dark_theme.subject@ == "blue"@,
            r.light_theme.predicate@ == "#006400"@,
    {
        ThemeConfig { auto_detect: true, dark_theme: dark_colors(), light_theme: light_colors() }
    }
}

impl Default for OutputConfig {
    /// Compact output, no explicit pager, automatic paging by terminal
    /// height.
    fn default() -> (r: Self)
        ensures
            r.expand == false,
            r.pager == false,
            r.auto_pager == true,
            r.auto_pager_threshold == 0,
    {
        OutputConfig {
            expand: false,
            pager: false,
            auto_pager: default_auto_pager(),
            auto_pager_threshold: 0,
        }
    }
}

impl Default for Config {
    /// The stock color, output and theme settings.
    fn default() -> (r: Self)
        ensures
            r.output.expand == false,
            r.output.auto_pager == true,
            r.theme.auto_detect == true,
    {
        Config {
            colors: ColorConfig::default(),
            output: OutputConfig::default(),
            theme: ThemeConfig::default(),
        }
    }
}

/// Relies on colored::Color::from<&str> and colored::Colorize::color: the
/// text styled with the named color, which the terminal settings may turn
/// into the text wrapped in one escape-prefix and the reset suffix, or
/// leave as the text itself. The name must be ASCII: colored's hex-code
/// parser slices the lowercased name at fixed byte offsets, which panics
/// inside a multi-byte character.
#[verifier::external_body]
fn paint(text: &str, color_name: &str) -> (r: String)
    requires
        is_ascii_seq(color_name@),
    ensures
        no_esc(text@) ==> strip_ansi(r@) == text@,
{
    colored::Colorize::color(text, colored::Color::from(color_name)).to_string()
}

/// Relies on colored::Colorize::bold besides color: as `paint`, with the
/// bold style added to the escape prefix. The name must be ASCII, as for
/// `paint`.
#[verifier::external_body]
fn paint_bold(text: &str, color_name: &str) -> (r: String)
    requires
        is_ascii_seq(color_name@),
    ensures
        no_esc(text@) ==> strip_ansi(r@) == text@,
{
    colored::Colorize::bold(colored::Colorize::color(text, colored::Color::from(color_name))).to_string()
}

/// An outside color value, carried opaquely.
#[verifier::external_type_specification]
#[verifier::external_body]
pub struct ExColor(colored::Color);

/// Relies on colored::Color::from<&str>: parses a color name or hex code,
/// with white standing in for anything unknown. The name must be ASCII:
/// the hex-code parser slices the lowercased name at fixed byte offsets,
/// which panics inside a multi-byte character.
#[verifier::external_body]
fn color_from_name(name: &str) -> colored::Color
    requires
        is_ascii_seq(name@),
{
    colored::Color::from(name)
}

/// Relies on colored::Color::White: the stock color for anything the
/// name parser cannot safely be handed.
#[verifier::external_body]
fn white_color() -> colored::Color {
    colored::Color::White
}

/// The color named by `color_name`: named colors written with spaces or
/// underscores, CSS hex codes, and white for anything unknown, a name
/// holding non-ASCII characters included.
pub fn string_to_color(color_name: &str) -> colored::Color {
    let v = chars_of(color_name);
    let mut w: Vec<char> = Vec::new();
    let mut i: usize = 0;
    while i < v.len()
        invariant
            i <= v@.len(),
        decreases v@.len() - i,
    {
        if v[i] == '_' {
            w.push(' ');
        } else {
            w.push(to_lower_char(v[i]));
        }
        i = i + 1;
    }
    if !ascii_only(w.as_slice()) {
        return white_color();
    }
    let normalized = string_of(w.as_slice());
    color_from_name(normalized.as_str())
}

/// The output roles a color can be configured for.
#[derive(Debug, Clone, Copy, PartialEq, Eq, Structural)]
pub enum Role {
    Subject,
    Predicate,
    Object,
    Literal,
    Prefix,
    Base,
    Graph,
}

impl ColorConfig {
    /// A configuration that styles nothing: every role name is empty.
    pub fn no_color() -> (r: Self)
        ensures
            r.subject@ == Seq::<char>::empty(),
            r.predicate@ == Seq::<char>::empty(),
            r.object@ == Seq::<char>::empty(),
            r.literal@ == Seq::<char>::empty(),
            r.prefix@ == Seq::<char>::empty(),
            r.base@ == Seq::<char>::empty(),
            r.graph@ == Seq::<char>::empty(),
    {
        ColorConfig {
            subject: String::new(),
            predicate: String::new(),
            object: String::new(),
            literal: String::new(),
            prefix: String::new(),
            base: String::new(),
            graph: String::new(),
        }
    }

    /// The color name configured for a role.
    pub open spec fn spec_role_name(&self, role: Role) -> Seq<char> {
        match role {
            Role::Subject => self.subject@,
            Role::Predicate => self.predicate@,
            Role::Object => self.object@,
            Role::Literal => self.literal@,
            Role::Prefix => self.prefix@,
            Role::Base => self.base@,
            Role::Graph => self.graph@,
        }
    }

    /// The color name configured for a role.
    pub fn role_name(&self, role: Role) -> (r: String)
        ensures
            r@ == self.spec_role_name(role),
    {
        match role {
            Role::Subject => self.subject.clone(),
            Role::Predicate => self.predicate.clone(),
            Role::Object => self.object.clone(),
            Role::Literal => self.literal.clone(),
            Role::Prefix => self.prefix.clone(),
            Role::Base => self.base.clone(),
            Role::Graph => self.graph.clone(),
        }
    }

    /// The color of a role named as in a configuration file, as an
    /// outside color value; an unknown role gets the object color.
    pub fn get_color(&self, name: &str) -> colored::Color {
        let role: Role = if str_eq(name, "subject") {
            Role::Subject
        } else if str_eq(name, "predicate") {
            Role::Predicate
        } else if str_eq(name, "object") {
            Role::Object
        } else if str_eq(name, "literal") {
            Role::Literal
        } else if str_eq(name, "prefix") {
            Role::Prefix
        } else if str_eq(name, "base") {
            Role::Base
        } else if str_eq(name, "graph") {
            Role::Graph
        } else {
            Role::Object
        };
        let color_name = self.role_name(role);
        string_to_color(color_name.as_str())
    }

    /// `text` styled in the role's color. A role with an empty color
    /// name, or one holding non-ASCII characters (which the color
    /// library's name parser cannot safely be handed), comes back as the
    /// plain text; any styling only wraps the text in escape sequences,
    /// so its printable characters stay the same.
    pub fn colorize(&self, text: &str, role: Role) -> (r: String)
        ensures
            self.spec_role_name(role).len() == 0 ==> r@ == text@,
            no_esc(text@) ==> strip_ansi(r@) == text@,
    {
        let name = self.role_name(role);
        let name_chars = chars_of(name.as_str());
        if name.as_str().is_empty() || !ascii_only(name_chars.as_slice()) {
            proof {
                if no_esc(text@) {
                    lemma_strip_ansi_plain(text@);
                }
            }
            text.to_owned()
        } else {
            paint(text, name.as_str())
        }
    }

    /// As `colorize`, with the bold style added.
    pub fn colorize_bold(&self, text: &str, role: Role) -> (r: String)
        ensures
            self.spec_role_name(role).len() == 0 ==> r@ == text@,
            no_esc(text@) ==> strip_ansi(r@) == text@,
    {
        let name = self.role_name(role);
        let name_chars = chars_of(name.as_str());
        if name.as_str().is_empty() || !ascii_only(name_chars.as_slice()) {
            proof {
                if no_esc(text@) {
                    lemma_strip_ansi_plain(text@);
                }
            }
            text.to_owned()
        } else {
            paint_bold(text, name.as_str())
        }
    }
}

/// Relies on termbg::theme: asks the terminal for its background theme,
/// true only when it answers that the background is light.
#[verifier::external_body]
pub fn is_light_background() -> bool {
    matches!(
        termbg::theme(std::time::Duration::from_millis(100)),
        Ok(termbg::Theme::Light)
    )
}

/// The colors to use: with background detection on, the light or dark
/// theme as detected; otherwise the explicitly configured colors.
pub fn get_effective_colors(config: &Config) -> (r: ColorConfig)
    ensures
        !config.theme.auto_detect ==> r == config.colors,
        config.theme.auto_detect ==> r == config.theme.light_theme || r
            == config.theme.dark_theme,
{
    if config.theme.auto_detect {
        if is_light_background() {
            config.theme.light_theme.clone()
        } else {
            config.theme.dark_theme.clone()
        }
    } else {
        config.colors.clone()
    }
}

} // verus!
