//! The text of reports, styled for a terminal.
use anstyle::{AnsiColor, Effects};
use vstd::prelude::*;

use crate::names::{ascending, NameSet};
use crate::report::event::{
    BumpSource, Event, EventView, LeakDetail, LeakDetailView, TreeNode, TreeNodeKind, TreeNodeView,
};
use crate::semver::{format_name_set, name_set_text, Bump, ChangeKind};
use crate::text::{join, join_texts, texts};
use crate::types::{MissingBumpItem, MissingBumpView, UnderBumpedItem, UnderBumpedView};

verus! {

/// A color of the terminal.
#[derive(Debug, Clone, Copy, PartialEq, Eq, Structural)]
pub enum Color {
    Red,
    Green,
    Yellow,
    Cyan,
    White,
}

/// An effect of the terminal.
#[derive(Debug, Clone, Copy, PartialEq, Eq, Structural)]
pub enum Effect {
    Bold,
    Dimmed,
}

/// The escape sequence that turns a color on.
pub open spec fn color_code(color: Option<Color>) -> Seq<char> {
    match color {
        Some(Color::Red) => "\x1b[31m"@,
        Some(Color::Green) => "\x1b[32m"@,
        Some(Color::Yellow) => "\x1b[33m"@,
        Some(Color::Cyan) => "\x1b[36m"@,
        Some(Color::White) => "\x1b[37m"@,
        None => Seq::empty(),
    }
}

/// The escape sequence that turns an effect on.
pub open spec fn effect_code(effect: Option<Effect>) -> Seq<char> {
    match effect {
        Some(Effect::Bold) => "\x1b[1m"@,
        Some(Effect::Dimmed) => "\x1b[2m"@,
        None => Seq::empty(),
    }
}

/// The escape sequence that turns everything off, where anything is on.
pub open spec fn reset_code(color: Option<Color>, effect: Option<Effect>) -> Seq<char> {
    if color is Some || effect is Some {
        "\x1b[0m"@
    } else {
        Seq::empty()
    }
}

/// `anstyle::Style::render` displays the escape sequences of the style's effects
/// and, after them, that of its foreground color; `render_reset` displays a reset
/// where the style is not plain.
#[verifier::external_body]
fn paint(text: &str, color: Option<Color>, effect: Option<Effect>) -> (r: String)
    ensures
        r@ == effect_code(effect) + color_code(color) + text@ + reset_code(color, effect),
{
    let fg = match color {
        Some(Color::Red) => Some(AnsiColor::Red),
        Some(Color::Green) => Some(AnsiColor::Green),
        Some(Color::Yellow) => Some(AnsiColor::Yellow),
        Some(Color::Cyan) => Some(AnsiColor::Cyan),
        Some(Color::White) => Some(AnsiColor::White),
        None => None,
    };
    let effects = match effect {
        Some(Effect::Bold) => Effects::BOLD,
        Some(Effect::Dimmed) => Effects::DIMMED,
        None => Effects::new(),
    };
    let style = anstyle::Style::new().fg_color(fg.map(anstyle::Color::Ansi)).effects(effects);
    format!("{}{}{}", style.render(), text, style.render_reset())
}

/// What `{:?}` displays of a text.
pub uninterp spec fn debug_spelling(text: Seq<char>) -> Seq<char>;

/// `{:?}` of a `str` displays it between double quotes with its special
/// characters escaped; what it displays depends on the text alone. Which
/// characters are escaped is not stated.
#[verifier::external_body]
fn debug_text(text: &str) -> (r: String)
    ensures
        r@ == debug_spelling(text@),
{
    format!("{:?}", text)
}

/// The styles of reports.
#[derive(Debug, Clone, Copy, PartialEq, Eq, Structural)]
pub enum Style {
    Red,
    RedBold,
    Yellow,
    YellowBold,
    Green,
    GreenBold,
    Cyan,
    CyanBold,
    WhiteBold,
    Bold,
    Dimmed,
}

impl Style {
    /// The color of the style.
    pub open spec fn color(self) -> Option<Color> {
        match self {
            Style::Red | Style::RedBold => Some(Color::Red),
            Style::Yellow | Style::YellowBold => Some(Color::Yellow),
            Style::Green | Style::GreenBold => Some(Color::Green),
            Style::Cyan | Style::CyanBold => Some(Color::Cyan),
            Style::WhiteBold => Some(Color::White),
            Style::Bold | Style::Dimmed => None,
        }
    }

    /// The effect of the style.
    pub open spec fn effect(self) -> Option<Effect> {
        match self {
            Style::RedBold | Style::YellowBold | Style::GreenBold | Style::CyanBold
            | Style::WhiteBold | Style::Bold => Some(Effect::Bold),
            Style::Dimmed => Some(Effect::Dimmed),
            Style::Red | Style::Yellow | Style::Green | Style::Cyan => None,
        }
    }
}

/// A text between the escape sequences of a style.
pub open spec fn in_style(text: Seq<char>, style: Style) -> Seq<char> {
    effect_code(style.effect()) + color_code(style.color()) + text + reset_code(
        style.color(),
        style.effect(),
    )
}

/// Render a styled fragment.
pub fn styled(text: &str, style: Style) -> (r: String)
    ensures
        r@ == in_style(text@, style),
{
    let color = match style {
        Style::Red | Style::RedBold => Some(Color::Red),
        Style::Yellow | Style::YellowBold => Some(Color::Yellow),
        Style::Green | Style::GreenBold => Some(Color::Green),
        Style::Cyan | Style::CyanBold => Some(Color::Cyan),
        Style::WhiteBold => Some(Color::White),
        Style::Bold | Style::Dimmed => None,
    };
    let effect = match style {
        Style::RedBold | Style::YellowBold | Style::GreenBold | Style::CyanBold
        | Style::WhiteBold | Style::Bold => Some(Effect::Bold),
        Style::Dimmed => Some(Effect::Dimmed),
        Style::Red | Style::Yellow | Style::Green | Style::Cyan => None,
    };
    paint(text, color, effect)
}

/// The styled label of a change; none where nothing changes.
pub open spec fn change_label(kind: ChangeKind) -> Option<Seq<char>> {
    match kind {
        ChangeKind::Breaking => Some(in_style("(BREAKING)"@, Style::RedBold)),
        ChangeKind::Additive => Some(in_style("(ADDITIVE)"@, Style::YellowBold)),
        ChangeKind::Patch => Some(in_style("(PATCH)"@, Style::Green)),
        ChangeKind::Unchanged => None,
    }
}

/// Map a `ChangeKind` to its styled label fragment.
pub fn change_kind_label(kind: ChangeKind) -> (r: Option<String>)
    ensures
        change_label(kind) == match r {
            Some(label) => Some(label@),
            None => None,
        },
{
    match kind {
        ChangeKind::Breaking => Some(styled("(BREAKING)", Style::RedBold)),
        ChangeKind::Additive => Some(styled("(ADDITIVE)", Style::YellowBold)),
        ChangeKind::Patch => Some(styled("(PATCH)", Style::Green)),
        ChangeKind::Unchanged => None,
    }
}

/// The style of a bump's connector in the influence tree, and its label.
pub open spec fn bump_style(bump: Bump) -> (Style, Seq<char>) {
    match bump {
        Bump::Major => (Style::RedBold, in_style("MAJOR"@, Style::RedBold)),
        Bump::Minor => (Style::RedBold, in_style("MINOR"@, Style::RedBold)),
        Bump::Patch => (Style::Green, in_style("PATCH"@, Style::Green)),
        Bump::Unchanged => (Style::Dimmed, in_style("none"@, Style::Dimmed)),
    }
}

/// The style of a bump's connector in the influence tree, and its label.
pub fn bump_styles(bump: Bump) -> (r: (Style, String))
    ensures
        (r.0, r.1@) == bump_style(bump),
{
    match bump {
        Bump::Major => (Style::RedBold, styled("MAJOR", Style::RedBold)),
        Bump::Minor => (Style::RedBold, styled("MINOR", Style::RedBold)),
        Bump::Patch => (Style::Green, styled("PATCH", Style::Green)),
        Bump::Unchanged => (Style::Dimmed, styled("none", Style::Dimmed)),
    }
}

/// The lines of the first `n` levels; a level whose node is the last of its
/// siblings has none.
pub open spec fn level_lines(last_at_depth: Seq<bool>, n: nat) -> Seq<char>
    decreases n,
{
    if n == 0 {
        Seq::empty()
    } else if last_at_depth[n - 1] {
        level_lines(last_at_depth, (n - 1) as nat) + "    "@
    } else {
        level_lines(last_at_depth, (n - 1) as nat) + "│   "@
    }
}

/// The lines before a node: those of the levels above it.
pub open spec fn prefix_of(last_at_depth: Seq<bool>) -> Seq<char> {
    if last_at_depth.len() == 0 {
        Seq::empty()
    } else {
        level_lines(last_at_depth, (last_at_depth.len() - 1) as nat)
    }
}

/// Build the prefix string for the ancestors of the current node.
pub fn ancestor_prefix(last_at_depth: &Vec<bool>) -> (r: String)
    ensures
        r@ == prefix_of(last_at_depth@),
{
    let mut r = String::new();
    if last_at_depth.len() <= 1 {
        return r;
    }
    let levels = last_at_depth.len() - 1;
    for i in 0..levels
        invariant
            levels == last_at_depth.len() - 1,
            r@ == level_lines(last_at_depth@, i as nat),
    {
        if last_at_depth[i] {
            r.append("    ");
        } else {
            r.append("│   ");
        }
    }
    r
}

/// The levels above and at a node, after those of the node before it.
pub open spec fn levels_at(before: Seq<bool>, node: TreeNodeView) -> Seq<bool> {
    (if node.depth < before.len() {
        before.take(node.depth as int)
    } else {
        before
    }).push(node.is_last_sibling)
}

/// The levels above and at the last of the first `n` nodes.
pub open spec fn levels(nodes: Seq<TreeNodeView>, n: nat) -> Seq<bool>
    decreases n,
{
    if n == 0 {
        Seq::empty()
    } else {
        levels_at(levels(nodes, (n - 1) as nat), nodes[n - 1])
    }
}

/// The connector of a node.
pub open spec fn connector(node: TreeNodeView) -> Seq<char> {
    if node.is_last_sibling {
        "└── "@
    } else {
        "├── "@
    }
}

/// The line of a node of the influence tree.
pub open spec fn tree_line(node: TreeNodeView, last_at_depth: Seq<bool>) -> Seq<char> {
    match node.kind {
        TreeNodeKind::Seed => in_style(connector(node), Style::Dimmed) + in_style(
            node.name + " (seed)"@,
            Style::YellowBold,
        ) + "\n"@,
        TreeNodeKind::Child { bump, already_shown } => {
            let (style, label) = bump_style(bump);
            let start = in_style(prefix_of(last_at_depth), Style::Dimmed) + in_style(
                connector(node),
                style,
            );
            if already_shown {
                start + in_style(node.name, Style::Cyan) + " "@ + in_style(
                    "("@ + label + ", already shown above)"@,
                    Style::Dimmed,
                ) + "\n"@
            } else {
                start + in_style(node.name, Style::CyanBold) + "  ("@ + label + ")\n"@
            }
        },
    }
}

/// The lines of the first `n` nodes of the influence tree.
pub open spec fn tree_text(nodes: Seq<TreeNodeView>, n: nat) -> Seq<char>
    decreases n,
{
    if n == 0 {
        Seq::empty()
    } else {
        tree_text(nodes, (n - 1) as nat) + tree_line(nodes[n - 1], levels(nodes, n))
    }
}

fn write_node(node: &TreeNode, last_at_depth: &Vec<bool>) -> (r: String)
    ensures
        r@ == tree_line(node.deep_view(), last_at_depth@),
{
    let connector = if node.is_last_sibling {
        "└── "
    } else {
        "├── "
    };
    match &node.kind {
        TreeNodeKind::Seed => {
            let mut name = node.name.as_str().to_owned();
            name.append(" (seed)");
            let mut r = styled(connector, Style::Dimmed);
            r.append(styled(name.as_str(), Style::YellowBold).as_str());
            r.append("\n");
            r
        },
        TreeNodeKind::Child { bump, already_shown } => {
            let (style, label) = bump_styles(*bump);
            let prefix = ancestor_prefix(last_at_depth);
            let mut r = styled(prefix.as_str(), Style::Dimmed);
            r.append(styled(connector, style).as_str());
            if *already_shown {
                let mut note = "(".to_owned();
                note.append(label.as_str());
                note.append(", already shown above)");
                r.append(styled(node.name.as_str(), Style::Cyan).as_str());
                r.append(" ");
                r.append(styled(note.as_str(), Style::Dimmed).as_str());
                r.append("\n");
            } else {
                r.append(styled(node.name.as_str(), Style::CyanBold).as_str());
                r.append("  (");
                r.append(label.as_str());
                r.append(")\n");
            }
            r
        },
    }
}

/// The lines of the influence tree.
pub fn write_tree(nodes: &Vec<TreeNode>) -> (r: String)
    ensures
        r@ == tree_text(nodes.deep_view(), nodes@.len()),
{
    let ghost views = nodes.deep_view();
    let mut r = String::new();
    let mut last_at_depth: Vec<bool> = Vec::new();
    for i in 0..nodes.len()
        invariant
            views == nodes.deep_view(),
            last_at_depth@ == levels(views, i as nat),
            r@ == tree_text(views, i as nat),
    {
        let node = &nodes[i];
        assert(views[i as int] == node.deep_view());
        if node.depth < last_at_depth.len() {
            last_at_depth.truncate(node.depth);
        }
        last_at_depth.push(node.is_last_sibling);
        assert(last_at_depth@ =~= levels(views, (i + 1) as nat));
        r.append(write_node(node, &last_at_depth).as_str());
    }
    r
}

/// The stream that a report goes to.
#[derive(Debug, Clone, Copy, PartialEq, Eq, Structural)]
pub enum Channel {
    Stdout,
    Stderr,
}

/// A text that goes to a stream.
#[derive(Debug)]
pub struct Output {
    pub channel: Channel,
    pub text: String,
}

/// A text that goes to a stream.
pub struct OutputView {
    pub channel: Channel,
    pub text: Seq<char>,
}

impl View for Output {
    type V = OutputView;

    open spec fn view(&self) -> OutputView {
        OutputView { channel: self.channel, text: self.text@ }
    }
}

/// A set of names as it is displayed.
pub open spec fn set_text(names: Set<Seq<char>>) -> Seq<char> {
    name_set_text(ascending(names))
}

/// A list of texts as `{:?}` displays it.
pub open spec fn debug_list(list: Seq<Seq<char>>) -> Seq<char> {
    "["@ + join(list.map_values(|text: Seq<char>| debug_spelling(text)), ", "@) + "]"@
}

/// The lines of the first `n` leaks.
pub open spec fn leak_lines(details: Seq<LeakDetailView>, n: nat) -> Seq<char>
    decreases n,
{
    if n == 0 {
        Seq::empty()
    } else {
        let detail = details[n - 1];
        leak_lines(details, (n - 1) as nat) + "     "@ + in_style(detail.item_kind, Style::Dimmed)
            + " "@ + in_style(detail.item_name, Style::Dimmed) + " — uses "@ + in_style(
            join(detail.leaked_types, ", "@),
            Style::Dimmed,
        ) + "\n"@
    }
}

/// The lines of the first `n` crates whose bump is too small.
pub open spec fn under_bumped_lines(items: Seq<UnderBumpedView>, n: nat) -> Seq<char>
    decreases n,
{
    if n == 0 {
        Seq::empty()
    } else {
        let item = items[n - 1];
        under_bumped_lines(items, (n - 1) as nat) + "  "@ + in_style(item.name, Style::Cyan)
            + " has "@ + item.local.label() + " bump but requires "@ + item.required.label()
            + "\n"@
    }
}

/// The lines of the first `n` crates that lack a bump.
pub open spec fn missing_lines(items: Seq<MissingBumpView>, n: nat) -> Seq<char>
    decreases n,
{
    if n == 0 {
        Seq::empty()
    } else {
        let item = items[n - 1];
        missing_lines(items, (n - 1) as nat) + "  "@ + in_style(item.name, Style::Cyan)
            + " requires "@ + item.required.label() + "\n"@
    }
}

/// The heading of a list of bumps; none where there is nothing to bump.
pub open spec fn list_heading(level: Bump) -> Option<Seq<char>> {
    match level {
        Bump::Major => Some(
            in_style("MAJOR-bump list (Requires MAJOR bump / ↑.0.0):"@, Style::RedBold),
        ),
        Bump::Minor => Some(
            in_style("MINOR-bump list (Requires MINOR bump / x.↑.0):"@, Style::YellowBold),
        ),
        Bump::Patch => Some(
            in_style("PATCH-bump list (Requires PATCH bump / x.y.↑):"@, Style::CyanBold),
        ),
        Bump::Unchanged => None,
    }
}

/// Where the bump of a local package comes from, as it is displayed.
pub open spec fn source_suffix(source: BumpSource) -> Seq<char> {
    match source {
        BumpSource::Package => Seq::empty(),
        BumpSource::Workspace => " "@ + in_style("[workspace]"@, Style::Dimmed),
    }
}

/// A text for the standard output.
pub open spec fn to_out(text: Seq<char>) -> Option<OutputView> {
    Some(OutputView { channel: Channel::Stdout, text })
}

/// A text for the standard error.
pub open spec fn to_err(text: Seq<char>) -> Option<OutputView> {
    Some(OutputView { channel: Channel::Stderr, text })
}

/// What is written of an event, and where.
pub open spec fn rendering(event: EventView) -> Option<OutputView> {
    match event {
        EventView::DirectModeBanner { seeds } => to_out(
            in_style("Direct mode:"@, Style::Bold) + " assuming BREAKING change for "@ + in_style(
                set_text(seeds),
                Style::Cyan,
            ) + "\n\n"@,
        ),
        EventView::ComparingRefs { source, target } => to_out(
            "Comparing versions between "@ + in_style(source, Style::CyanBold) + " and "@
                + in_style(target, Style::CyanBold) + "...\n\n"@,
        ),
        EventView::NoChangesDetected => to_out(
            in_style(
                "No breaking/additive version changes detected. Nothing to propagate."@,
                Style::Green,
            ) + "\n"@,
        ),
        EventView::DetectedChangesHeader => to_out(
            in_style("Detected version changes:"@, Style::Bold) + "\n"@,
        ),
        EventView::DepVersionChanged { name, old, new, kind } => match change_label(kind) {
            Some(label) => to_out(
                "  "@ + in_style("[dep]"@, Style::Dimmed) + " "@ + in_style(name, Style::Cyan)
                    + ": "@ + in_style(old, Style::Dimmed) + " -> "@ + in_style(
                    new,
                    Style::WhiteBold,
                ) + " "@ + label + "\n"@,
            ),
            None => None,
        },
        EventView::LocalPackageBump { name, old, new, kind, source } => match change_label(kind) {
            Some(label) => to_out(
                "  "@ + in_style("[local]"@, Style::Dimmed) + " "@ + in_style(name, Style::Cyan)
                    + ": "@ + in_style(old.text, Style::Dimmed) + " -> "@ + in_style(
                    new.text,
                    Style::WhiteBold,
                ) + " "@ + label + source_suffix(source) + "\n"@,
            ),
            None => None,
        },
        EventView::NewCrate { name } => to_out(
            "  "@ + in_style("[new]"@, Style::Dimmed) + " "@ + in_style(name, Style::Cyan) + " "@
                + in_style("(NEW CRATE)"@, Style::GreenBold) + "\n"@,
        ),
        EventView::RemovedCrate { name } => to_out(
            "  "@ + in_style("[removed]"@, Style::Dimmed) + " "@ + in_style(name, Style::Cyan)
                + " "@ + in_style("(REMOVED)"@, Style::RedBold) + "\n"@,
        ),
        EventView::GlobMemberSkipped { member } => to_err(
            "Warning: skipping glob workspace member '"@ + member
                + "' for version inheritance\n"@,
        ),
        EventView::BreakingSeeds { names } => to_out(
            "\n"@ + in_style("Breaking seeds:"@, Style::Bold) + " "@ + in_style(
                set_text(names),
                Style::Red,
            ) + "\n\n"@,
        ),
        EventView::AdditiveSeeds { names } => to_out(
            in_style("Additive seeds:"@, Style::Bold) + " "@ + in_style(
                set_text(names),
                Style::Yellow,
            ) + "\n\n"@,
        ),
        EventView::AnalyzingCrate { name, deps } => to_out(
            "Analyzing "@ + in_style(name, Style::CyanBold) + " for public API exposure of "@
                + debug_list(deps) + "\n"@,
        ),
        EventView::BinaryCrateSkipped { name } => to_out(
            "  "@ + in_style("->"@, Style::Dimmed) + " "@ + in_style(name, Style::Cyan)
                + " is binary-only, no public API to leak\n"@,
        ),
        EventView::LeakDetected { crate_name, dep, bump, details } => to_out(
            "  "@ + in_style("->"@, Style::RedBold) + " "@ + in_style(crate_name, Style::RedBold)
                + " leaks "@ + in_style(dep, Style::Yellow) + " ("@ + bump.label() + "):\n"@
                + leak_lines(details, details.len()),
        ),
        EventView::RustdocFailed { crate_name, error, conservative_bump } => to_err(
            "  "@ + in_style("WARNING:"@, Style::YellowBold)
                + " rustdoc JSON generation failed for "@ + in_style(crate_name, Style::Cyan)
                + ": "@ + error + "\n  Conservatively assuming "@ + conservative_bump.label()
                + " bump.\n"@,
        ),
        EventView::InfluenceTreeHeader => to_out(
            "\n"@ + in_style("=== Influence Tree ==="@, Style::GreenBold) + "\n"@,
        ),
        EventView::InfluenceTree { nodes } => to_out(tree_text(nodes, nodes.len()) + "\n"@),
        EventView::AnalysisCompleteHeader => to_out(
            in_style("=== Analysis Complete ==="@, Style::GreenBold) + "\n"@,
        ),
        EventView::BumpList { level, names } => match list_heading(level) {
            Some(heading) => to_out(heading + " "@ + set_text(names) + "\n"@),
            None => None,
        },
        EventView::FailedRustdocSummary { names } => to_err(
            "\n"@ + in_style("WARNING:"@, Style::YellowBold)
                + " The following crates failed rustdoc JSON generation and were conservatively assumed breaking. Verify manually:\n  "@
                + set_text(names) + "\n"@,
        ),
        EventView::UnderBumped { items } => to_err(
            "\n"@ + in_style("ERROR:"@, Style::RedBold)
                + " These crates have insufficient version bumps:\n"@ + under_bumped_lines(
                items,
                items.len(),
            ),
        ),
        EventView::MissingBumps { items } => to_err(
            "\n"@ + in_style("ERROR:"@, Style::RedBold)
                + " These crates need a version bump but have none:\n"@ + missing_lines(
                items,
                items.len(),
            ),
        ),
    }
}

fn out(text: String) -> (r: Option<Output>)
    ensures
        r matches Some(output) && to_out(text@) == Some(output@),
{
    Some(Output { channel: Channel::Stdout, text })
}

fn err(text: String) -> (r: Option<Output>)
    ensures
        r matches Some(output) && to_err(text@) == Some(output@),
{
    Some(Output { channel: Channel::Stderr, text })
}

/// `r` behind a styled text.
fn push_styled(r: &mut String, text: &str, style: Style)
    ensures
        final(r)@ == old(r)@ + in_style(text@, style),
{
    r.append(styled(text, style).as_str());
}

fn display_set(names: &NameSet) -> (r: String)
    ensures
        r@ == set_text(names@),
{
    format_name_set(names.names())
}

/// A list of texts as `{:?}` displays it.
pub fn display_list(list: &Vec<String>) -> (r: String)
    ensures
        r@ == debug_list(texts(list@)),
{
    let ghost all = texts(list@).map_values(|text: Seq<char>| debug_spelling(text));
    let mut spelled: Vec<String> = Vec::new();
    for i in 0..list.len()
        invariant
            all == texts(list@).map_values(|text: Seq<char>| debug_spelling(text)),
            texts(spelled@) == all.take(i as int),
    {
        let ghost before = texts(spelled@);
        spelled.push(debug_text(list[i].as_str()));
        assert(texts(spelled@) =~= before.push(all[i as int]));
        assert(all.take(i + 1) =~= all.take(i as int).push(all[i as int]));
    }
    assert(all.take(list.len() as int) =~= all);
    let mut r = "[".to_owned();
    r.append(join_texts(&spelled, ", ").as_str());
    r.append("]");
    r
}

fn write_leaks(details: &Vec<LeakDetail>) -> (r: String)
    ensures
        r@ == leak_lines(details.deep_view(), details@.len()),
{
    let ghost views = details.deep_view();
    let mut r = String::new();
    for i in 0..details.len()
        invariant
            views == details.deep_view(),
            r@ == leak_lines(views, i as nat),
    {
        let detail = &details[i];
        assert(views[i as int] == detail.deep_view());
        r.append("     ");
        push_styled(&mut r, detail.item_kind.as_str(), Style::Dimmed);
        r.append(" ");
        push_styled(&mut r, detail.item_name.as_str(), Style::Dimmed);
        r.append(" — uses ");
        push_styled(&mut r, join_texts(&detail.leaked_types, ", ").as_str(), Style::Dimmed);
        r.append("\n");
    }
    r
}

fn write_under_bumped(items: &Vec<UnderBumpedItem>) -> (r: String)
    ensures
        r@ == under_bumped_lines(items.deep_view(), items@.len()),
{
    let ghost views = items.deep_view();
    let mut r = String::new();
    for i in 0..items.len()
        invariant
            views == items.deep_view(),
            r@ == under_bumped_lines(views, i as nat),
    {
        let item = &items[i];
        assert(views[i as int] == item.deep_view());
        r.append("  ");
        push_styled(&mut r, item.name.as_str(), Style::Cyan);
        r.append(" has ");
        r.append(item.local.as_str());
        r.append(" bump but requires ");
        r.append(item.required.as_str());
        r.append("\n");
    }
    r
}

fn write_missing(items: &Vec<MissingBumpItem>) -> (r: String)
    ensures
        r@ == missing_lines(items.deep_view(), items@.len()),
{
    let ghost views = items.deep_view();
    let mut r = String::new();
    for i in 0..items.len()
        invariant
            views == items.deep_view(),
            r@ == missing_lines(views, i as nat),
    {
        let item = &items[i];
        assert(views[i as int] == item.deep_view());
        r.append("  ");
        push_styled(&mut r, item.name.as_str(), Style::Cyan);
        r.append(" requires ");
        r.append(item.required.as_str());
        r.append("\n");
    }
    r
}

fn write_heading(level: Bump) -> (r: Option<String>)
    ensures
        list_heading(level) == match r {
            Some(heading) => Some(heading@),
            None => None,
        },
{
    match level {
        Bump::Major => Some(
            styled("MAJOR-bump list (Requires MAJOR bump / ↑.0.0):", Style::RedBold),
        ),
        Bump::Minor => Some(
            styled("MINOR-bump list (Requires MINOR bump / x.↑.0):", Style::YellowBold),
        ),
        Bump::Patch => Some(
            styled("PATCH-bump list (Requires PATCH bump / x.y.↑):", Style::CyanBold),
        ),
        Bump::Unchanged => None,
    }
}

fn write_source(source: BumpSource) -> (r: String)
    ensures
        r@ == source_suffix(source),
{
    match source {
        BumpSource::Package => String::new(),
        BumpSource::Workspace => {
            let mut r = " ".to_owned();
            push_styled(&mut r, "[workspace]", Style::Dimmed);
            r
        },
    }
}

/// The text of an event, and the stream that it goes to; `None` for an event
/// that is not written.
pub fn render(event: &Event) -> (r: Option<Output>)
    ensures
        rendering(event@) == match r {
            Some(output) => Some(output@),
            None => None,
        },
{
    match event {
        Event::DirectModeBanner { seeds } => {
            let mut r = styled("Direct mode:", Style::Bold);
            r.append(" assuming BREAKING change for ");
            push_styled(&mut r, display_set(seeds).as_str(), Style::Cyan);
            r.append("\n\n");
            out(r)
        },
        Event::ComparingRefs { source, target } => {
            let mut r = "Comparing versions between ".to_owned();
            push_styled(&mut r, source.as_str(), Style::CyanBold);
            r.append(" and ");
            push_styled(&mut r, target.as_str(), Style::CyanBold);
            r.append("...\n\n");
            out(r)
        },
        Event::NoChangesDetected => {
            let mut r = styled("No breaking/additive version changes detected. Nothing to propagate.", Style::Green);
            r.append("\n");
            out(r)
        },
        Event::DetectedChangesHeader => {
            let mut r = styled("Detected version changes:", Style::Bold);
            r.append("\n");
            out(r)
        },
        Event::DepVersionChanged { name, old: before, new: after, kind } => {
            let label = match change_kind_label(*kind) {
                Some(label) => label,
                None => {
                    return None;
                },
            };
            let mut r = "  ".to_owned();
            push_styled(&mut r, "[dep]", Style::Dimmed);
            r.append(" ");
            push_styled(&mut r, name.as_str(), Style::Cyan);
            r.append(": ");
            push_styled(&mut r, before.as_str(), Style::Dimmed);
            r.append(" -> ");
            push_styled(&mut r, after.as_str(), Style::WhiteBold);
            r.append(" ");
            r.append(label.as_str());
            r.append("\n");
            out(r)
        },
        Event::LocalPackageBump { name, old: before, new: after, kind, source } => {
            let label = match change_kind_label(*kind) {
                Some(label) => label,
                None => {
                    return None;
                },
            };
            let suffix = write_source(*source);
            let mut r = "  ".to_owned();
            push_styled(&mut r, "[local]", Style::Dimmed);
            r.append(" ");
            push_styled(&mut r, name.as_str(), Style::Cyan);
            r.append(": ");
            push_styled(&mut r, before.text.as_str(), Style::Dimmed);
            r.append(" -> ");
            push_styled(&mut r, after.text.as_str(), Style::WhiteBold);
            r.append(" ");
            r.append(label.as_str());
            r.append(suffix.as_str());
            r.append("\n");
            out(r)
        },
        Event::NewCrate { name } => {
            let mut r = "  ".to_owned();
            push_styled(&mut r, "[new]", Style::Dimmed);
            r.append(" ");
            push_styled(&mut r, name.as_str(), Style::Cyan);
            r.append(" ");
            push_styled(&mut r, "(NEW CRATE)", Style::GreenBold);
            r.append("\n");
            out(r)
        },
        Event::RemovedCrate { name } => {
            let mut r = "  ".to_owned();
            push_styled(&mut r, "[removed]", Style::Dimmed);
            r.append(" ");
            push_styled(&mut r, name.as_str(), Style::Cyan);
            r.append(" ");
            push_styled(&mut r, "(REMOVED)", Style::RedBold);
            r.append("\n");
            out(r)
        },
        Event::GlobMemberSkipped { member } => {
            let mut r = "Warning: skipping glob workspace member '".to_owned();
            r.append(member.as_str());
            r.append("' for version inheritance\n");
            err(r)
        },
        Event::BreakingSeeds { names } => {
            let mut r = "\n".to_owned();
            push_styled(&mut r, "Breaking seeds:", Style::Bold);
            r.append(" ");
            push_styled(&mut r, display_set(names).as_str(), Style::Red);
            r.append("\n\n");
            out(r)
        },
        Event::AdditiveSeeds { names } => {
            let mut r = styled("Additive seeds:", Style::Bold);
            r.append(" ");
            push_styled(&mut r, display_set(names).as_str(), Style::Yellow);
            r.append("\n\n");
            out(r)
        },
        Event::AnalyzingCrate { name, deps } => {
            let mut r = "Analyzing ".to_owned();
            push_styled(&mut r, name.as_str(), Style::CyanBold);
            r.append(" for public API exposure of ");
            r.append(display_list(deps).as_str());
            r.append("\n");
            out(r)
        },
        Event::BinaryCrateSkipped { name } => {
            let mut r = "  ".to_owned();
            push_styled(&mut r, "->", Style::Dimmed);
            r.append(" ");
            push_styled(&mut r, name.as_str(), Style::Cyan);
            r.append(" is binary-only, no public API to leak\n");
            out(r)
        },
        Event::LeakDetected { crate_name, dep, bump, details } => {
            let mut r = "  ".to_owned();
            push_styled(&mut r, "->", Style::RedBold);
            r.append(" ");
            push_styled(&mut r, crate_name.as_str(), Style::RedBold);
            r.append(" leaks ");
            push_styled(&mut r, dep.as_str(), Style::Yellow);
            r.append(" (");
            r.append(bump.as_str());
            r.append("):\n");
            r.append(write_leaks(details).as_str());
            out(r)
        },
        Event::RustdocFailed { crate_name, error, conservative_bump } => {
            let mut r = "  ".to_owned();
            push_styled(&mut r, "WARNING:", Style::YellowBold);
            r.append(" rustdoc JSON generation failed for ");
            push_styled(&mut r, crate_name.as_str(), Style::Cyan);
            r.append(": ");
            r.append(error.as_str());
            r.append("\n  Conservatively assuming ");
            r.append(conservative_bump.as_str());
            r.append(" bump.\n");
            err(r)
        },
        Event::InfluenceTreeHeader => {
            let mut r = "\n".to_owned();
            push_styled(&mut r, "=== Influence Tree ===", Style::GreenBold);
            r.append("\n");
            out(r)
        },
        Event::InfluenceTree { nodes } => {
            let mut r = write_tree(nodes);
            r.append("\n");
            out(r)
        },
        Event::AnalysisCompleteHeader => {
            let mut r = styled("=== Analysis Complete ===", Style::GreenBold);
            r.append("\n");
            out(r)
        },
        Event::BumpList { level, names } => {
            let heading = match write_heading(*level) {
                Some(heading) => heading,
                None => {
                    return None;
                },
            };
            let mut r = heading;
            r.append(" ");
            r.append(display_set(names).as_str());
            r.append("\n");
            out(r)
        },
        Event::FailedRustdocSummary { names } => {
            let mut r = "\n".to_owned();
            push_styled(&mut r, "WARNING:", Style::YellowBold);
            r.append(" The following crates failed rustdoc JSON generation and were conservatively assumed breaking. Verify manually:\n  ");
            r.append(display_set(names).as_str());
            r.append("\n");
            err(r)
        },
        Event::UnderBumped { items } => {
            let mut r = "\n".to_owned();
            push_styled(&mut r, "ERROR:", Style::RedBold);
            r.append(" These crates have insufficient version bumps:\n");
            r.append(write_under_bumped(items).as_str());
            err(r)
        },
        Event::MissingBumps { items } => {
            let mut r = "\n".to_owned();
            push_styled(&mut r, "ERROR:", Style::RedBold);
            r.append(" These crates need a version bump but have none:\n");
            r.append(write_missing(items).as_str());
            err(r)
        },
    }
}

} // verus!
