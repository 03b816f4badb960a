//! What is reported to the user.
use vstd::prelude::*;

use crate::names::NameSet;
use crate::semver::{Bump, ChangeKind, Version, VersionView};
use crate::text::texts;
use crate::types::{CrateName, MissingBumpItem, MissingBumpView, UnderBumpedItem, UnderBumpedView};

verus! {

/// Where a local package version bump came from.
#[derive(Debug, Clone, Copy, PartialEq, Eq, Structural)]
pub enum BumpSource {
    Package,
    Workspace,
}

/// One leaked-type detail line in verbose mode.
#[derive(Debug)]
pub struct LeakDetail {
    pub item_kind: String,
    pub item_name: String,
    pub leaked_types: Vec<String>,
}

/// What a leak detail says.
pub struct LeakDetailView {
    pub item_kind: Seq<char>,
    pub item_name: Seq<char>,
    pub leaked_types: Seq<Seq<char>>,
}

impl DeepView for LeakDetail {
    type V = LeakDetailView;

    open spec fn deep_view(&self) -> LeakDetailView {
        LeakDetailView {
            item_kind: self.item_kind@,
            item_name: self.item_name@,
            leaked_types: texts(self.leaked_types@),
        }
    }
}

/// Role of a node in the influence tree.
#[derive(Debug, Clone, Copy, PartialEq, Eq, Structural)]
pub enum TreeNodeKind {
    Seed,
    Child { bump: Bump, already_shown: bool },
}

/// One node in the influence tree, in depth-first order.
#[derive(Debug)]
pub struct TreeNode {
    pub depth: usize,
    pub is_last_sibling: bool,
    pub name: CrateName,
    pub kind: TreeNodeKind,
}

/// What a tree node says.
pub struct TreeNodeView {
    pub depth: nat,
    pub is_last_sibling: bool,
    pub name: Seq<char>,
    pub kind: TreeNodeKind,
}

impl DeepView for TreeNode {
    type V = TreeNodeView;

    open spec fn deep_view(&self) -> TreeNodeView {
        TreeNodeView {
            depth: self.depth as nat,
            is_last_sibling: self.is_last_sibling,
            name: self.name@,
            kind: self.kind,
        }
    }
}

/// Structured user-facing event.
#[allow(inconsistent_fields)]
#[derive(Debug)]
pub enum Event {
    DirectModeBanner { seeds: NameSet },
    ComparingRefs { source: String, target: String },
    NoChangesDetected,
    DetectedChangesHeader,
    DepVersionChanged { name: String, old: String, new: String, kind: ChangeKind },
    LocalPackageBump {
        name: String,
        old: Version,
        new: Version,
        kind: ChangeKind,
        source: BumpSource,
    },
    NewCrate { name: String },
    RemovedCrate { name: String },
    GlobMemberSkipped { member: String },
    BreakingSeeds { names: NameSet },
    AdditiveSeeds { names: NameSet },
    AnalyzingCrate { name: String, deps: Vec<String> },
    BinaryCrateSkipped { name: String },
    LeakDetected { crate_name: String, dep: String, bump: Bump, details: Vec<LeakDetail> },
    RustdocFailed { crate_name: String, error: String, conservative_bump: Bump },
    InfluenceTreeHeader,
    InfluenceTree { nodes: Vec<TreeNode> },
    AnalysisCompleteHeader,
    BumpList { level: Bump, names: NameSet },
    FailedRustdocSummary { names: NameSet },
    UnderBumped { items: Vec<UnderBumpedItem> },
    MissingBumps { items: Vec<MissingBumpItem> },
}

/// What an event says.
#[allow(inconsistent_fields)]
pub enum EventView {
    DirectModeBanner { seeds: Set<Seq<char>> },
    ComparingRefs { source: Seq<char>, target: Seq<char> },
    NoChangesDetected,
    DetectedChangesHeader,
    DepVersionChanged { name: Seq<char>, old: Seq<char>, new: Seq<char>, kind: ChangeKind },
    LocalPackageBump {
        name: Seq<char>,
        old: VersionView,
        new: VersionView,
        kind: ChangeKind,
        source: BumpSource,
    },
    NewCrate { name: Seq<char> },
    RemovedCrate { name: Seq<char> },
    GlobMemberSkipped { member: Seq<char> },
    BreakingSeeds { names: Set<Seq<char>> },
    AdditiveSeeds { names: Set<Seq<char>> },
    AnalyzingCrate { name: Seq<char>, deps: Seq<Seq<char>> },
    BinaryCrateSkipped { name: Seq<char> },
    LeakDetected { crate_name: Seq<char>, dep: Seq<char>, bump: Bump, details: Seq<LeakDetailView> },
    RustdocFailed { crate_name: Seq<char>, error: Seq<char>, conservative_bump: Bump },
    InfluenceTreeHeader,
    InfluenceTree { nodes: Seq<TreeNodeView> },
    AnalysisCompleteHeader,
    BumpList { level: Bump, names: Set<Seq<char>> },
    FailedRustdocSummary { names: Set<Seq<char>> },
    UnderBumped { items: Seq<UnderBumpedView> },
    MissingBumps { items: Seq<MissingBumpView> },
}

impl View for Event {
    type V = EventView;

    open spec fn view(&self) -> EventView {
        match self {
            Event::DirectModeBanner { seeds } => EventView::DirectModeBanner { seeds: seeds@ },
            Event::ComparingRefs { source, target } => EventView::ComparingRefs {
                source: source@,
                target: target@,
            },
            Event::NoChangesDetected => EventView::NoChangesDetected,
            Event::DetectedChangesHeader => EventView::DetectedChangesHeader,
            Event::DepVersionChanged { name, old, new, kind } => EventView::DepVersionChanged {
                name: name@,
                old: old@,
                new: new@,
                kind: *kind,
            },
            Event::LocalPackageBump { name, old, new, kind, source } => {
                EventView::LocalPackageBump {
                    name: name@,
                    old: old@,
                    new: new@,
                    kind: *kind,
                    source: *source,
                }
            },
            Event::NewCrate { name } => EventView::NewCrate { name: name@ },
            Event::RemovedCrate { name } => EventView::RemovedCrate { name: name@ },
            Event::GlobMemberSkipped { member } => EventView::GlobMemberSkipped {
                member: member@,
            },
            Event::BreakingSeeds { names } => EventView::BreakingSeeds { names: names@ },
            Event::AdditiveSeeds { names } => EventView::AdditiveSeeds { names: names@ },
            Event::AnalyzingCrate { name, deps } => EventView::AnalyzingCrate {
                name: name@,
                deps: texts(deps@),
            },
            Event::BinaryCrateSkipped { name } => EventView::BinaryCrateSkipped { name: name@ },
            Event::LeakDetected { crate_name, dep, bump, details } => EventView::LeakDetected {
                crate_name: crate_name@,
                dep: dep@,
                bump: *bump,
                details: details.deep_view(),
            },
            Event::RustdocFailed { crate_name, error, conservative_bump } => {
                EventView::RustdocFailed {
                    crate_name: crate_name@,
                    error: error@,
                    conservative_bump: *conservative_bump,
                }
            },
            Event::InfluenceTreeHeader => EventView::InfluenceTreeHeader,
            Event::InfluenceTree { nodes } => EventView::InfluenceTree {
                nodes: nodes.deep_view(),
            },
            Event::AnalysisCompleteHeader => EventView::AnalysisCompleteHeader,
            Event::BumpList { level, names } => EventView::BumpList {
                level: *level,
                names: names@,
            },
            Event::FailedRustdocSummary { names } => EventView::FailedRustdocSummary {
                names: names@,
            },
            Event::UnderBumped { items } => EventView::UnderBumped { items: items.deep_view() },
            Event::MissingBumps { items } => EventView::MissingBumps { items: items.deep_view() },
        }
    }
}

} // verus!
