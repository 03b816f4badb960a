//! Laws of reports: what is written, where, and what it shows.
use vstd::prelude::*;

use crate::display::depths_fit;
use crate::names::ascending;
use crate::report::event::{BumpSource, EventView, LeakDetailView, TreeNodeKind, TreeNodeView};
use crate::report::stream::{
    connector, debug_list, debug_spelling, in_style, leak_lines, level_lines, levels, missing_lines,
    prefix_of, rendering, set_text, source_suffix, tree_line, tree_text, under_bumped_lines,
    Channel, Style,
};
use crate::run::RunErrorView;
use crate::semver::{name_set_text, Bump, ChangeKind, VersionView};
use crate::text::join;
use crate::types::{MissingBumpView, UnderBumpedView};

verus! {

/// The pieces, each between two of the gaps.
pub open spec fn spread(gaps: Seq<Seq<char>>, pieces: Seq<Seq<char>>, n: nat) -> Seq<char>
    decreases n,
{
    if n == 0 {
        gaps[0]
    } else {
        spread(gaps, pieces, (n - 1) as nat) + pieces[n - 1] + gaps[n as int]
    }
}

/// The text shows the pieces, one after the other, in this order.
pub open spec fn shows(text: Seq<char>, pieces: Seq<Seq<char>>) -> bool {
    exists|gaps: Seq<Seq<char>>|
        gaps.len() == pieces.len() + 1 && text == #[trigger] spread(gaps, pieces, pieces.len())
}

proof fn lemma_no_piece(text: Seq<char>)
    ensures
        shows(text, Seq::empty()),
{
    let gaps = seq![text];
    assert(text == spread(gaps, Seq::empty(), 0));
}

proof fn lemma_spread_same(
    a: Seq<Seq<char>>,
    p: Seq<Seq<char>>,
    b: Seq<Seq<char>>,
    q: Seq<Seq<char>>,
    n: nat,
)
    requires
        n <= p.len(),
        n <= q.len(),
        n < a.len(),
        n < b.len(),
        forall|i: int| 0 <= i < n ==> p[i] == q[i],
        forall|i: int| 0 <= i <= n ==> a[i] == b[i],
    ensures
        spread(a, p, n) == spread(b, q, n),
    decreases n,
{
    if n > 0 {
        lemma_spread_same(a, p, b, q, (n - 1) as nat);
    }
}

proof fn lemma_one_more(text: Seq<char>, pieces: Seq<Seq<char>>, piece: Seq<char>, gap: Seq<char>)
    requires
        shows(text, pieces),
    ensures
        shows(text + piece + gap, pieces.push(piece)),
{
    let gaps = choose|gaps: Seq<Seq<char>>|
        gaps.len() == pieces.len() + 1 && text == #[trigger] spread(gaps, pieces, pieces.len());
    let more = gaps.push(gap);
    let all = pieces.push(piece);
    lemma_spread_same(gaps, pieces, more, all, pieces.len());
    assert(text + piece + gap == spread(more, all, all.len()));
}

/// A text shows a piece, or two or three of them, that stand in it.
proof fn lemma_shows(
    text: Seq<char>,
    a: Seq<char>,
    first: Seq<char>,
    b: Seq<char>,
    second: Seq<char>,
    c: Seq<char>,
    third: Seq<char>,
    d: Seq<char>,
)
    ensures
        text == a + first + b ==> shows(text, seq![first]),
        text == a + first + b + second + c ==> shows(text, seq![first, second]),
        text == a + first + b + second + c + third + d ==> shows(
            text,
            seq![first, second, third],
        ),
{
    lemma_no_piece(a);
    let none = Seq::<Seq<char>>::empty();
    lemma_one_more(a, none, first, b);
    assert(none.push(first) =~= seq![first]);
    lemma_one_more(a + first + b, seq![first], second, c);
    assert(seq![first].push(second) =~= seq![first, second]);
    lemma_one_more(a + first + b + second + c, seq![first, second], third, d);
    assert(seq![first, second].push(third) =~= seq![first, second, third]);
}

/// Warnings and errors go to the standard error, and everything else to the standard
/// output. Nothing is written only of what does not change.
pub proof fn law_channels(event: EventView)
    ensures
        match event {
            EventView::GlobMemberSkipped { .. } | EventView::RustdocFailed { .. }
            | EventView::FailedRustdocSummary { .. } | EventView::UnderBumped { .. }
            | EventView::MissingBumps { .. } => rendering(event) matches Some(output)
                && output.channel == Channel::Stderr,
            EventView::DepVersionChanged { kind, .. } => rendering(event) is None <==> kind
                == ChangeKind::Unchanged,
            EventView::LocalPackageBump { kind, .. } => rendering(event) is None <==> kind
                == ChangeKind::Unchanged,
            EventView::BumpList { level, .. } => rendering(event) is None <==> level
                == Bump::Unchanged,
            _ => rendering(event) is Some,
        },
        rendering(event) matches Some(output) ==> (output.channel == Channel::Stderr <==> (
        event is GlobMemberSkipped || event is RustdocFailed || event is FailedRustdocSummary
            || event is UnderBumped || event is MissingBumps)),
{
}

/// A styled text stands as it is behind the codes of its effect and its color; a code
/// that ends them follows.
pub proof fn law_styled_text_is_shown(text: Seq<char>, style: Style)
    ensures
        shows(in_style(text, style), seq![text]),
        exists|start: Seq<char>| in_style(text, style) == #[trigger] (start + text + "\x1b[0m"@),
{
    let start = crate::report::stream::effect_code(style.effect())
        + crate::report::stream::color_code(style.color());
    let end = "\x1b[0m"@;
    assert(in_style(text, style) =~= start + text + end);
    lemma_shows(
        in_style(text, style),
        start,
        text,
        end,
        Seq::empty(),
        Seq::empty(),
        Seq::empty(),
        Seq::empty(),
    );
}

/// Each style has its own codes, as terminals read them.
pub proof fn law_codes_of_styles(text: Seq<char>)
    ensures
        in_style(text, Style::Red) == "\x1b[31m"@ + text + "\x1b[0m"@,
        in_style(text, Style::Green) == "\x1b[32m"@ + text + "\x1b[0m"@,
        in_style(text, Style::Yellow) == "\x1b[33m"@ + text + "\x1b[0m"@,
        in_style(text, Style::Cyan) == "\x1b[36m"@ + text + "\x1b[0m"@,
        in_style(text, Style::RedBold) == "\x1b[1m"@ + "\x1b[31m"@ + text + "\x1b[0m"@,
        in_style(text, Style::GreenBold) == "\x1b[1m"@ + "\x1b[32m"@ + text + "\x1b[0m"@,
        in_style(text, Style::YellowBold) == "\x1b[1m"@ + "\x1b[33m"@ + text + "\x1b[0m"@,
        in_style(text, Style::CyanBold) == "\x1b[1m"@ + "\x1b[36m"@ + text + "\x1b[0m"@,
        in_style(text, Style::WhiteBold) == "\x1b[1m"@ + "\x1b[37m"@ + text + "\x1b[0m"@,
        in_style(text, Style::Bold) == "\x1b[1m"@ + text + "\x1b[0m"@,
        in_style(text, Style::Dimmed) == "\x1b[2m"@ + text + "\x1b[0m"@,
{
    let none = Seq::<char>::empty();
    let end = "\x1b[0m"@;
    assert(none + "\x1b[31m"@ =~= "\x1b[31m"@);
    assert(none + "\x1b[32m"@ =~= "\x1b[32m"@);
    assert(none + "\x1b[33m"@ =~= "\x1b[33m"@);
    assert(none + "\x1b[36m"@ =~= "\x1b[36m"@);
    assert("\x1b[1m"@ + none =~= "\x1b[1m"@);
    assert("\x1b[2m"@ + none =~= "\x1b[2m"@);
}

/// Where the bump of a package comes from the workspace, the line says so at its end.
pub proof fn law_source_of_a_bump_is_shown(
    name: Seq<char>,
    old: VersionView,
    new: VersionView,
    kind: ChangeKind,
)
    requires
        kind != ChangeKind::Unchanged,
    ensures
        ({
            let own = rendered(
                EventView::LocalPackageBump { name, old, new, kind, source: BumpSource::Package },
            );
            let shared = rendered(
                EventView::LocalPackageBump { name, old, new, kind, source: BumpSource::Workspace },
            );
            exists|line: Seq<char>|
                own == #[trigger] (line + "\n"@) && shared == line + " "@ + in_style(
                    "[workspace]"@,
                    Style::Dimmed,
                ) + "\n"@
        }),
{
    let line = "  "@ + in_style("[local]"@, Style::Dimmed) + " "@ + in_style(name, Style::Cyan)
        + ": "@ + in_style(old.text, Style::Dimmed) + " -> "@ + in_style(
        new.text,
        Style::WhiteBold,
    ) + " "@ + kind_text(kind);
    let own = rendered(
        EventView::LocalPackageBump { name, old, new, kind, source: BumpSource::Package },
    );
    let shared = rendered(
        EventView::LocalPackageBump { name, old, new, kind, source: BumpSource::Workspace },
    );
    let mark = in_style("[workspace]"@, Style::Dimmed);
    assert(line + Seq::<char>::empty() =~= line);
    assert(own == line + "\n"@);
    assert(line + (" "@ + mark) =~= line + " "@ + mark);
    assert(shared == line + " "@ + mark + "\n"@);
}

/// What is written of an event.
pub open spec fn rendered(event: EventView) -> Seq<char> {
    match rendering(event) {
        Some(output) => output.text,
        None => Seq::empty(),
    }
}

/// What is told of a change shows the name, the old version before the new one, and
/// what kind of change this is.
pub proof fn law_changes_are_shown(event: EventView)
    ensures
        match event {
            EventView::DepVersionChanged { name, old, new, kind } => kind != ChangeKind::Unchanged
                ==> shows(
                rendered(event),
                seq![
                    in_style("[dep]"@, Style::Dimmed) + " "@ + in_style(name, Style::Cyan),
                    in_style(old, Style::Dimmed) + " -> "@ + in_style(new, Style::WhiteBold),
                    kind_text(kind),
                ],
            ),
            EventView::LocalPackageBump { name, old, new, kind, .. } => kind
                != ChangeKind::Unchanged ==> shows(
                rendered(event),
                seq![
                    in_style("[local]"@, Style::Dimmed) + " "@ + in_style(name, Style::Cyan),
                    in_style(old.text, Style::Dimmed) + " -> "@ + in_style(
                        new.text,
                        Style::WhiteBold,
                    ),
                    kind_text(kind),
                ],
            ),
            EventView::NewCrate { name } => shows(
                rendered(event),
                seq![
                    in_style("[new]"@, Style::Dimmed),
                    in_style(name, Style::Cyan),
                    in_style("(NEW CRATE)"@, Style::GreenBold),
                ],
            ),
            EventView::RemovedCrate { name } => shows(
                rendered(event),
                seq![
                    in_style("[removed]"@, Style::Dimmed),
                    in_style(name, Style::Cyan),
                    in_style("(REMOVED)"@, Style::RedBold),
                ],
            ),
            _ => true,
        },
{
    match event {
        EventView::DepVersionChanged { name, old, new, kind } => {
            if kind != ChangeKind::Unchanged {
                lemma_change_line(
                    rendered(event),
                    in_style("[dep]"@, Style::Dimmed),
                    in_style(name, Style::Cyan),
                    in_style(old, Style::Dimmed),
                    in_style(new, Style::WhiteBold),
                    kind_text(kind),
                    Seq::empty(),
                );
            }
        },
        EventView::LocalPackageBump { name, old, new, kind, source } => {
            if kind != ChangeKind::Unchanged {
                lemma_change_line(
                    rendered(event),
                    in_style("[local]"@, Style::Dimmed),
                    in_style(name, Style::Cyan),
                    in_style(old.text, Style::Dimmed),
                    in_style(new.text, Style::WhiteBold),
                    kind_text(kind),
                    source_suffix(source),
                );
            }
        },
        EventView::NewCrate { name } => {
            lemma_shows(
                rendered(event),
                "  "@,
                in_style("[new]"@, Style::Dimmed),
                " "@,
                in_style(name, Style::Cyan),
                " "@,
                in_style("(NEW CRATE)"@, Style::GreenBold),
                "\n"@,
            );
        },
        EventView::RemovedCrate { name } => {
            lemma_shows(
                rendered(event),
                "  "@,
                in_style("[removed]"@, Style::Dimmed),
                " "@,
                in_style(name, Style::Cyan),
                " "@,
                in_style("(REMOVED)"@, Style::RedBold),
                "\n"@,
            );
        },
        _ => {},
    }
}

/// The line of a change, with what follows the kind of the change.
proof fn lemma_change_line(
    text: Seq<char>,
    tag: Seq<char>,
    name: Seq<char>,
    old: Seq<char>,
    new: Seq<char>,
    kind: Seq<char>,
    suffix: Seq<char>,
)
    requires
        text == "  "@ + tag + " "@ + name + ": "@ + old + " -> "@ + new + " "@ + kind + suffix
            + "\n"@ || (suffix.len() == 0 && text == "  "@ + tag + " "@ + name + ": "@ + old
            + " -> "@ + new + " "@ + kind + "\n"@),
    ensures
        shows(text, seq![tag + " "@ + name, old + " -> "@ + new, kind]),
{
    let first = tag + " "@ + name;
    let second = old + " -> "@ + new;
    let end = suffix + "\n"@;
    assert(text =~= "  "@ + first + ": "@ + second + " "@ + kind + end);
    lemma_shows(text, "  "@, first, ": "@, second, " "@, kind, end);
}

/// The words for a change.
pub open spec fn kind_text(kind: ChangeKind) -> Seq<char> {
    match kind {
        ChangeKind::Breaking => in_style("(BREAKING)"@, Style::RedBold),
        ChangeKind::Additive => in_style("(ADDITIVE)"@, Style::YellowBold),
        ChangeKind::Patch => in_style("(PATCH)"@, Style::Green),
        ChangeKind::Unchanged => Seq::empty(),
    }
}

/// What is told of the seeds and of the crates under analysis shows what they are and
/// all of their names.
pub proof fn law_seeds_and_crates_are_shown(event: EventView)
    ensures
        match event {
            EventView::DirectModeBanner { seeds } => shows(
                rendered(event),
                seq![
                    in_style("Direct mode:"@, Style::Bold),
                    in_style(set_text(seeds), Style::Cyan),
                ],
            ),
            EventView::ComparingRefs { source, target } => shows(
                rendered(event),
                seq![in_style(source, Style::CyanBold), in_style(target, Style::CyanBold)],
            ),
            EventView::BreakingSeeds { names } => shows(
                rendered(event),
                seq![
                    in_style("Breaking seeds:"@, Style::Bold),
                    in_style(set_text(names), Style::Red),
                ],
            ),
            EventView::AdditiveSeeds { names } => shows(
                rendered(event),
                seq![
                    in_style("Additive seeds:"@, Style::Bold),
                    in_style(set_text(names), Style::Yellow),
                ],
            ),
            EventView::GlobMemberSkipped { member } => shows(rendered(event), seq![member]),
            EventView::AnalyzingCrate { name, deps } => shows(
                rendered(event),
                seq![in_style(name, Style::CyanBold), debug_list(deps)],
            ),
            EventView::BinaryCrateSkipped { name } => shows(
                rendered(event),
                seq![in_style(name, Style::Cyan), " is binary-only"@],
            ),
            _ => true,
        },
{
    let text = rendered(event);
    let none = Seq::<char>::empty();
    match event {
        EventView::DirectModeBanner { seeds } => {
            let first = in_style("Direct mode:"@, Style::Bold);
            let second = in_style(set_text(seeds), Style::Cyan);
            let b = " assuming BREAKING change for "@;
            assert(text =~= none + first + b + second + "\n\n"@);
            lemma_shows(text, none, first, b, second, "\n\n"@, none, none);
        },
        EventView::ComparingRefs { source, target } => {
            let a = "Comparing versions between "@;
            let first = in_style(source, Style::CyanBold);
            let second = in_style(target, Style::CyanBold);
            assert(text =~= a + first + " and "@ + second + "...\n\n"@);
            lemma_shows(text, a, first, " and "@, second, "...\n\n"@, none, none);
        },
        EventView::BreakingSeeds { names } => {
            let first = in_style("Breaking seeds:"@, Style::Bold);
            let second = in_style(set_text(names), Style::Red);
            assert(text =~= "\n"@ + first + " "@ + second + "\n\n"@);
            lemma_shows(text, "\n"@, first, " "@, second, "\n\n"@, none, none);
        },
        EventView::AdditiveSeeds { names } => {
            let first = in_style("Additive seeds:"@, Style::Bold);
            let second = in_style(set_text(names), Style::Yellow);
            assert(text =~= none + first + " "@ + second + "\n\n"@);
            lemma_shows(text, none, first, " "@, second, "\n\n"@, none, none);
        },
        EventView::GlobMemberSkipped { member } => {
            let a = "Warning: skipping glob workspace member '"@;
            let b = "' for version inheritance\n"@;
            assert(text =~= a + member + b);
            lemma_shows(text, a, member, b, none, none, none, none);
        },
        EventView::AnalyzingCrate { name, deps } => {
            let first = in_style(name, Style::CyanBold);
            let b = " for public API exposure of "@;
            assert(text =~= "Analyzing "@ + first + b + debug_list(deps) + "\n"@);
            lemma_shows(text, "Analyzing "@, first, b, debug_list(deps), "\n"@, none, none);
        },
        EventView::BinaryCrateSkipped { name } => {
            let a = "  "@ + in_style("->"@, Style::Dimmed) + " "@;
            let first = in_style(name, Style::Cyan);
            reveal_strlit(" is binary-only, no public API to leak\n");
            reveal_strlit(" is binary-only");
            reveal_strlit(", no public API to leak\n");
            assert(" is binary-only, no public API to leak\n"@ =~= " is binary-only"@
                + ", no public API to leak\n"@);
            let c = ", no public API to leak\n"@;
            assert(text =~= a + first + none + " is binary-only"@ + c);
            lemma_shows(text, a, first, none, " is binary-only"@, c, none, none);
        },
        _ => {},
    }
}

/// What is told of leaks, failures and results shows the crate, what it is about and
/// the bump; lists follow their headings.
pub proof fn law_findings_are_shown(event: EventView)
    ensures
        match event {
            EventView::LeakDetected { crate_name, dep, bump, details } => {
                &&& shows(
                    rendered(event),
                    seq![
                        in_style(crate_name, Style::RedBold) + " leaks "@,
                        in_style(dep, Style::Yellow),
                        bump.label(),
                    ],
                )
                &&& shows(rendered(event), seq![bump.label(), leak_lines(details, details.len())])
            },
            EventView::RustdocFailed { crate_name, error, conservative_bump } => shows(
                rendered(event),
                seq![in_style(crate_name, Style::Cyan), error, conservative_bump.label()],
            ),
            EventView::InfluenceTree { nodes } => shows(
                rendered(event),
                seq![tree_text(nodes, nodes.len())],
            ),
            EventView::BumpList { level, names } => level != Bump::Unchanged ==> shows(
                rendered(event),
                seq![heading_text(level), set_text(names)],
            ),
            EventView::FailedRustdocSummary { names } => shows(
                rendered(event),
                seq![in_style("WARNING:"@, Style::YellowBold), set_text(names)],
            ),
            _ => true,
        },
{
    let text = rendered(event);
    let none = Seq::<char>::empty();
    match event {
        EventView::LeakDetected { crate_name, dep, bump, details } => {
            lemma_leak_text(
                text,
                in_style("->"@, Style::RedBold),
                in_style(crate_name, Style::RedBold),
                in_style(dep, Style::Yellow),
                bump.label(),
                leak_lines(details, details.len()),
            );
        },
        EventView::RustdocFailed { crate_name, error, conservative_bump } => {
            lemma_shows(
                text,
                "  "@ + in_style("WARNING:"@, Style::YellowBold)
                    + " rustdoc JSON generation failed for "@,
                in_style(crate_name, Style::Cyan),
                ": "@,
                error,
                "\n  Conservatively assuming "@,
                conservative_bump.label(),
                " bump.\n"@,
            );
        },
        EventView::InfluenceTree { nodes } => {
            lemma_bare_start(text, tree_text(nodes, nodes.len()), "\n"@, none, none);
        },
        EventView::BumpList { level, names } => {
            if level != Bump::Unchanged {
                lemma_bare_start(text, heading_text(level), " "@, set_text(names), "\n"@);
            }
        },
        EventView::FailedRustdocSummary { names } => {
            lemma_shows(
                text,
                "\n"@,
                in_style("WARNING:"@, Style::YellowBold),
                " The following crates failed rustdoc JSON generation and were conservatively assumed breaking. Verify manually:\n  "@,
                set_text(names),
                "\n"@,
                none,
                none,
            );
        },
        _ => {},
    }
}

proof fn lemma_leak_text(
    text: Seq<char>,
    arrow: Seq<char>,
    name: Seq<char>,
    dep: Seq<char>,
    bump: Seq<char>,
    tail: Seq<char>,
)
    requires
        text == "  "@ + arrow + " "@ + name + " leaks "@ + dep + " ("@ + bump + "):\n"@ + tail,
    ensures
        shows(text, seq![name + " leaks "@, dep, bump]),
        shows(text, seq![bump, tail]),
{
    let none = Seq::<char>::empty();
    let a = "  "@ + arrow + " "@;
    let first = name + " leaks "@;
    let d = "):\n"@ + tail;
    assert(text =~= a + first + none + dep + " ("@ + bump + d);
    lemma_shows(text, a, first, none, dep, " ("@, bump, d);
    let head = a + first + dep + " ("@;
    assert(text =~= head + bump + "):\n"@ + tail + none);
    lemma_shows(text, head, bump, "):\n"@, tail, none, none, none);
}

proof fn lemma_bare_start(
    text: Seq<char>,
    first: Seq<char>,
    b: Seq<char>,
    second: Seq<char>,
    c: Seq<char>,
)
    ensures
        text == first + b ==> shows(text, seq![first]),
        text == first + b + second + c ==> shows(text, seq![first, second]),
{
    let none = Seq::<char>::empty();
    assert(none + first =~= first);
    lemma_shows(text, none, first, b, second, c, none, none);
}

proof fn lemma_error_words()
    ensures
        " These crates have insufficient version bumps:\n"@ == " These crates have"@
            + " insufficient version bumps:\n"@,
        " These crates need a version bump but have none:\n"@ == " These crates"@
            + " need a version bump but have none:\n"@,
{
    reveal_strlit(" These crates have insufficient version bumps:\n");
    reveal_strlit(" These crates have");
    reveal_strlit(" insufficient version bumps:\n");
    assert(" These crates have insufficient version bumps:\n"@ =~= " These crates have"@
        + " insufficient version bumps:\n"@);
    reveal_strlit(" These crates need a version bump but have none:\n");
    reveal_strlit(" These crates");
    reveal_strlit(" need a version bump but have none:\n");
    assert(" These crates need a version bump but have none:\n"@ =~= " These crates"@
        + " need a version bump but have none:\n"@);
}

proof fn lemma_error_text(
    text: Seq<char>,
    start: Seq<char>,
    one: Seq<char>,
    first: Seq<char>,
    lines: Seq<char>,
)
    requires
        text == start + (one + first) + lines,
    ensures
        shows(text, seq![first, lines]),
{
    let none = Seq::<char>::empty();
    let a = start + one;
    assert(text =~= a + first + none + lines + none);
    lemma_shows(text, a, first, none, lines, none, none, none);
}

/// What is told of crates with insufficient bumps says what is wrong, and has their
/// lines after that.
pub proof fn law_insufficient_bumps_are_shown(event: EventView)
    ensures
        match event {
            EventView::UnderBumped { items } => shows(
                rendered(event),
                seq![
                    " insufficient version bumps:\n"@,
                    under_bumped_lines(items, items.len()),
                ],
            ),
            EventView::MissingBumps { items } => shows(
                rendered(event),
                seq![
                    " need a version bump but have none:\n"@,
                    missing_lines(items, items.len()),
                ],
            ),
            _ => true,
        },
{
    let text = rendered(event);
    match event {
        EventView::UnderBumped { items } => {
            lemma_error_words();
            lemma_error_text(
                text,
                "\n"@ + in_style("ERROR:"@, Style::RedBold),
                " These crates have"@,
                " insufficient version bumps:\n"@,
                under_bumped_lines(items, items.len()),
            );
        },
        EventView::MissingBumps { items } => {
            lemma_error_words();
            lemma_error_text(
                text,
                "\n"@ + in_style("ERROR:"@, Style::RedBold),
                " These crates"@,
                " need a version bump but have none:\n"@,
                missing_lines(items, items.len()),
            );
        },
        _ => {},
    }
}

/// The heading of a list of bumps.
pub open spec fn heading_text(level: Bump) -> Seq<char> {
    match level {
        Bump::Major => in_style(
            "MAJOR-bump list (Requires MAJOR bump / ↑.0.0):"@,
            Style::RedBold,
        ),
        Bump::Minor => in_style(
            "MINOR-bump list (Requires MINOR bump / x.↑.0):"@,
            Style::YellowBold,
        ),
        Bump::Patch => in_style(
            "PATCH-bump list (Requires PATCH bump / x.y.↑):"@,
            Style::CyanBold,
        ),
        Bump::Unchanged => Seq::empty(),
    }
}

/// Each crate has a line of its own, in the given order: with its name, and the bump
/// that it has before the one that it needs.
pub proof fn law_errors_have_their_lines(
    under: Seq<UnderBumpedView>,
    missing: Seq<MissingBumpView>,
    details: Seq<LeakDetailView>,
)
    ensures
        under_bumped_lines(under, 0).len() == 0,
        missing_lines(missing, 0).len() == 0,
        leak_lines(details, 0).len() == 0,
        forall|i: int|
            0 <= i < under.len() ==> #[trigger] under_bumped_lines(under, (i + 1) as nat)
                == under_bumped_lines(under, i as nat) + ("  "@ + in_style(
                under[i].name,
                Style::Cyan,
            ) + " has "@ + under[i].local.label() + " bump but requires "@
                + under[i].required.label() + "\n"@),
        forall|i: int|
            0 <= i < missing.len() ==> #[trigger] missing_lines(missing, (i + 1) as nat)
                == missing_lines(missing, i as nat) + ("  "@ + in_style(
                missing[i].name,
                Style::Cyan,
            ) + " requires "@ + missing[i].required.label() + "\n"@),
        forall|i: int|
            0 <= i < details.len() ==> #[trigger] leak_lines(details, (i + 1) as nat)
                == leak_lines(details, i as nat) + ("     "@ + in_style(
                details[i].item_kind,
                Style::Dimmed,
            ) + " "@ + in_style(details[i].item_name, Style::Dimmed) + " — uses "@ + in_style(
                join(details[i].leaked_types, ", "@),
                Style::Dimmed,
            ) + "\n"@),
{
    assert forall|i: int| 0 <= i < under.len() implies #[trigger] under_bumped_lines(
        under,
        (i + 1) as nat,
    ) == under_bumped_lines(under, i as nat) + ("  "@ + in_style(under[i].name, Style::Cyan)
        + " has "@ + under[i].local.label() + " bump but requires "@ + under[i].required.label()
        + "\n"@) by {
        assert(under_bumped_lines(under, (i + 1) as nat) =~= under_bumped_lines(under, i as nat) + (
        "  "@ + in_style(under[i].name, Style::Cyan) + " has "@ + under[i].local.label()
            + " bump but requires "@ + under[i].required.label() + "\n"@));
    }
    assert forall|i: int| 0 <= i < missing.len() implies #[trigger] missing_lines(
        missing,
        (i + 1) as nat,
    ) == missing_lines(missing, i as nat) + ("  "@ + in_style(missing[i].name, Style::Cyan)
        + " requires "@ + missing[i].required.label() + "\n"@) by {
        assert(missing_lines(missing, (i + 1) as nat) =~= missing_lines(missing, i as nat) + ("  "@
            + in_style(missing[i].name, Style::Cyan) + " requires "@ + missing[i].required.label()
            + "\n"@));
    }
    assert forall|i: int| 0 <= i < details.len() implies #[trigger] leak_lines(
        details,
        (i + 1) as nat,
    ) == leak_lines(details, i as nat) + ("     "@ + in_style(details[i].item_kind, Style::Dimmed)
        + " "@ + in_style(details[i].item_name, Style::Dimmed) + " — uses "@ + in_style(
        join(details[i].leaked_types, ", "@),
        Style::Dimmed,
    ) + "\n"@) by {
        assert(leak_lines(details, (i + 1) as nat) =~= leak_lines(details, i as nat) + ("     "@
            + in_style(details[i].item_kind, Style::Dimmed) + " "@ + in_style(
            details[i].item_name,
            Style::Dimmed,
        ) + " — uses "@ + in_style(join(details[i].leaked_types, ", "@), Style::Dimmed)
            + "\n"@));
    }
}

/// The node at `j` is the last one at depth `depth` up to the node at `k`: the node
/// itself, or the one above it at that depth.
pub open spec fn is_above(nodes: Seq<TreeNodeView>, j: int, k: int, depth: nat) -> bool {
    &&& 0 <= j <= k < nodes.len()
    &&& nodes[j].depth == depth
    &&& forall|i: int| j < i <= k ==> (#[trigger] nodes[i]).depth > depth
}

/// The levels of a node say, for each depth down to its own, whether the node above it
/// at that depth is the last of its siblings.
pub proof fn law_levels_are_those_of_the_nodes_above(
    nodes: Seq<TreeNodeView>,
    k: int,
    j: int,
    depth: nat,
)
    requires
        depths_fit(nodes, 0),
        is_above(nodes, j, k, depth),
        depth <= nodes[k].depth,
    ensures
        levels(nodes, (k + 1) as nat).len() == nodes[k].depth + 1,
        levels(nodes, (k + 1) as nat)[depth as int] == nodes[j].is_last_sibling,
{
    lemma_levels(nodes, k);
    lemma_level(nodes, k, j, depth);
}

proof fn lemma_levels(nodes: Seq<TreeNodeView>, k: int)
    requires
        depths_fit(nodes, 0),
        0 <= k < nodes.len(),
    ensures
        levels(nodes, (k + 1) as nat).len() == nodes[k].depth + 1,
    decreases k,
{
    if k > 0 {
        lemma_levels(nodes, k - 1);
        assert(nodes[k].depth <= nodes[k - 1].depth + 1);
    } else {
        assert(levels(nodes, 0).len() == 0);
        assert(nodes[0].depth == 0);
    }
}

proof fn lemma_level(nodes: Seq<TreeNodeView>, k: int, j: int, depth: nat)
    requires
        depths_fit(nodes, 0),
        is_above(nodes, j, k, depth),
        depth <= nodes[k].depth,
    ensures
        levels(nodes, (k + 1) as nat)[depth as int] == nodes[j].is_last_sibling,
    decreases k,
{
    lemma_levels(nodes, k);
    if j < k {
        lemma_levels(nodes, k - 1);
        assert(nodes[k].depth > depth);
        assert(nodes[k].depth <= nodes[k - 1].depth + 1);
        assert(is_above(nodes, j, k - 1, depth));
        lemma_level(nodes, k - 1, j, depth);
    } else if k > 0 {
        lemma_levels(nodes, k - 1);
        assert(nodes[k].depth <= nodes[k - 1].depth + 1);
    } else {
        assert(levels(nodes, 0).len() == 0);
    }
}

/// Before a node stands a column of four characters for each level above it: a bar
/// where more siblings follow at that level, and blanks where none do.
pub proof fn law_prefix_has_a_column_for_each_level(last: Seq<bool>, is_last: bool)
    ensures
        prefix_of(Seq::empty()).len() == 0,
        prefix_of(seq![is_last]).len() == 0,
        last.len() > 0 ==> prefix_of(last.push(is_last)) == prefix_of(last) + if last.last() {
            "    "@
        } else {
            "│   "@
        },
{
    if last.len() > 0 {
        lemma_level_lines(last, last.push(is_last), (last.len() - 1) as nat);
        assert(prefix_of(last.push(is_last)) == level_lines(last.push(is_last), last.len()));
    }
}

proof fn lemma_level_lines(a: Seq<bool>, b: Seq<bool>, n: nat)
    requires
        n <= a.len(),
        n <= b.len(),
        forall|i: int| 0 <= i < n ==> a[i] == b[i],
    ensures
        level_lines(a, n) == level_lines(b, n),
    decreases n,
{
    if n > 0 {
        lemma_level_lines(a, b, (n - 1) as nat);
    }
}

/// The tree has a line for each node, in their order. The line of a seed has its name
/// and says that it is a seed; that of another crate has its name and its bump, and
/// says where the crate was shown above. Before that stand the columns of the levels
/// above and the connector.
pub proof fn law_tree_has_a_line_for_each_node(nodes: Seq<TreeNodeView>, k: int)
    requires
        0 <= k < nodes.len(),
    ensures
        ({
            let node = nodes[k];
            let line = tree_line(node, levels(nodes, (k + 1) as nat));
            let lead = if node.is_last_sibling {
                "└── "@
            } else {
                "├── "@
            };
            &&& tree_text(nodes, 0).len() == 0
            &&& tree_text(nodes, (k + 1) as nat) == tree_text(nodes, k as nat) + line
            &&& match node.kind {
                TreeNodeKind::Seed => shows(
                    line,
                    seq![
                        in_style(lead, Style::Dimmed),
                        in_style(node.name + " (seed)"@, Style::YellowBold),
                    ],
                ),
                TreeNodeKind::Child { bump, already_shown: false } => shows(
                    line,
                    seq![
                        in_style(prefix_of(levels(nodes, (k + 1) as nat)), Style::Dimmed)
                            + in_style(lead, bump_color(bump)),
                        in_style(node.name, Style::CyanBold),
                        bump_text(bump),
                    ],
                ),
                TreeNodeKind::Child { bump, already_shown: true } => shows(
                    line,
                    seq![
                        in_style(prefix_of(levels(nodes, (k + 1) as nat)), Style::Dimmed)
                            + in_style(lead, bump_color(bump)),
                        in_style(node.name, Style::Cyan),
                        in_style(
                            "("@ + bump_text(bump) + ", already shown above)"@,
                            Style::Dimmed,
                        ),
                    ],
                ),
            }
        }),
{
    let node = nodes[k];
    let at = levels(nodes, (k + 1) as nat);
    let line = tree_line(node, at);
    let none = Seq::<char>::empty();
    match node.kind {
        TreeNodeKind::Seed => {
            let first = in_style(connector(node), Style::Dimmed);
            let second = in_style(node.name + " (seed)"@, Style::YellowBold);
            assert(line =~= none + first + none + second + "\n"@);
            lemma_shows(line, none, first, none, second, "\n"@, none, none);
        },
        TreeNodeKind::Child { bump, already_shown } => {
            let first = in_style(prefix_of(at), Style::Dimmed) + in_style(
                connector(node),
                bump_color(bump),
            );
            if already_shown {
                let second = in_style(node.name, Style::Cyan);
                let third = in_style(
                    "("@ + bump_text(bump) + ", already shown above)"@,
                    Style::Dimmed,
                );
                assert(line =~= none + first + none + second + " "@ + third + "\n"@);
                lemma_shows(line, none, first, none, second, " "@, third, "\n"@);
            } else {
                let second = in_style(node.name, Style::CyanBold);
                let third = bump_text(bump);
                assert(line =~= none + first + none + second + "  ("@ + third + ")\n"@);
                lemma_shows(line, none, first, none, second, "  ("@, third, ")\n"@);
            }
        },
    }
}

/// The word for a bump in the tree.
pub open spec fn bump_text(bump: Bump) -> Seq<char> {
    match bump {
        Bump::Major => in_style("MAJOR"@, Style::RedBold),
        Bump::Minor => in_style("MINOR"@, Style::RedBold),
        Bump::Patch => in_style("PATCH"@, Style::Green),
        Bump::Unchanged => in_style("none"@, Style::Dimmed),
    }
}

/// The style of the connector to a crate with a bump in the tree.
pub open spec fn bump_color(bump: Bump) -> Style {
    match bump {
        Bump::Major => Style::RedBold,
        Bump::Minor => Style::RedBold,
        Bump::Patch => Style::Green,
        Bump::Unchanged => Style::Dimmed,
    }
}

/// A set of names is shown as the list of its names in ascending order; a list of
/// texts in brackets, with commas between them.
pub proof fn law_names_are_listed(names: Set<Seq<char>>, list: Seq<Seq<char>>)
    ensures
        set_text(names) == name_set_text(ascending(names)),
        debug_list(list) == "["@ + join(
            Seq::new(list.len(), |i: int| debug_spelling(list[i])),
            ", "@,
        ) + "]"@,
{
    assert(list.map_values(|text: Seq<char>| debug_spelling(text)) =~= Seq::new(
        list.len(),
        |i: int| debug_spelling(list[i]),
    ));
}

/// The message of an error names the crates that it is about.
pub proof fn law_errors_name_the_crates(names: Seq<Seq<char>>, name: Seq<char>)
    ensures
        shows(RunErrorView::UnknownCrates(names).text(), seq!["--direct: "@, join(names, ", "@)]),
        shows(RunErrorView::NoManifestPath(name).text(), seq!["No manifest path for "@, name]),
        shows(
            RunErrorView::UnreadableDocs(name).text(),
            seq!["Failed to parse rustdoc JSON for "@, name],
        ),
        shows(
            RunErrorView::Stuck(names).text(),
            seq!["Cannot make progress on crates: "@, debug_list(names)],
        ),
{
    let none = Seq::<char>::empty();
    reveal_strlit("Unknown crate(s) passed to --direct: ");
    reveal_strlit("Unknown crate(s) passed to ");
    reveal_strlit("--direct: ");
    let list = join(names, ", "@);
    let first = "--direct: "@;
    let a = "Unknown crate(s) passed to "@;
    assert("Unknown crate(s) passed to --direct: "@ =~= a + first);
    let text = RunErrorView::UnknownCrates(names).text();
    assert(text =~= a + first + none + list + none);
    lemma_shows(text, a, first, none, list, none, none, none);
    let text = RunErrorView::NoManifestPath(name).text();
    assert(text =~= none + "No manifest path for "@ + none + name + none);
    lemma_shows(text, none, "No manifest path for "@, none, name, none, none, none);
    let text = RunErrorView::UnreadableDocs(name).text();
    assert(text =~= none + "Failed to parse rustdoc JSON for "@ + none + name + none);
    lemma_shows(text, none, "Failed to parse rustdoc JSON for "@, none, name, none, none, none);
    let text = RunErrorView::Stuck(names).text();
    let end = ". This should not happen with a valid Cargo workspace."@;
    assert(text =~= none + "Cannot make progress on crates: "@ + none + debug_list(names) + end);
    lemma_shows(
        text,
        none,
        "Cannot make progress on crates: "@,
        none,
        debug_list(names),
        end,
        none,
        none,
    );
}

/// The headings, and what is told where nothing changes, are fixed texts.
pub proof fn law_fixed_texts()
    ensures
        rendered(EventView::NoChangesDetected) == in_style(
            "No breaking/additive version changes detected. Nothing to propagate."@,
            Style::Green,
        ) + "\n"@,
        rendered(EventView::DetectedChangesHeader) == in_style(
            "Detected version changes:"@,
            Style::Bold,
        ) + "\n"@,
        rendered(EventView::InfluenceTreeHeader) == "\n"@ + in_style(
            "=== Influence Tree ==="@,
            Style::GreenBold,
        ) + "\n"@,
        rendered(EventView::AnalysisCompleteHeader) == in_style(
            "=== Analysis Complete ==="@,
            Style::GreenBold,
        ) + "\n"@,
        RunErrorView::NoResolveGraph.text() == "No resolve graph found"@,
        RunErrorView::BumpErrors.text() == "semwave encountered errors during analysis"@,
{
}

} // verus!
