//! One run over the list of tools: which package to ask for next, what to
//! keep of each answer, and the manifest to write at the end.
//!
//! The caller does the asking and the writing. A package whose metadata
//! cannot be had is passed over: the run goes on with the next tool.

use crate::manifest::{
    header_line, listed, manifest_text, read_dependencies, render, section_lines, version_line,
};
use crate::registry::{parse_deps, parsed, FetchError, Response, ResponseView};
use crate::resolved::{all_dependencies, lemma_lookup_push, lookup, ResolvedSet, ResolvedView};
use crate::roundtrip::{lemma_manifest_reads_back, listed_all, reads_back, reads_nothing};
use crate::tools::{tool_views, Tool, ToolView};
use vstd::prelude::*;

verus! {

/// The entries recorded once the first tools of `tools` have been asked for,
/// one outcome each: an entry for each record that came, none for a failure.
pub open spec fn resolved_after(tools: Seq<ToolView>, outcomes: Seq<Option<ResponseView>>) -> Seq<
    ResolvedView,
>
    recommends
        outcomes.len() <= tools.len(),
    decreases outcomes.len(),
{
    if outcomes.len() == 0 {
        Seq::empty()
    } else {
        let before = resolved_after(tools, outcomes.drop_last());
        match outcomes.last() {
            Some(record) => before.push(
                ResolvedView { tool: tools[outcomes.len() - 1].name, deps: parsed(record) },
            ),
            None => before,
        }
    }
}

/// What an outcome leaves for the bookkeeping: the record, if one came.
pub open spec fn kept_record(outcome: Result<Response, FetchError>) -> Option<ResponseView> {
    match outcome {
        Ok(record) => Some(record@),
        Err(_) => None,
    }
}

/// What the caller does next.
#[derive(Debug, Clone)]
pub enum Action {
    /// Ask the index for the package of this name, then call `record`.
    Fetch(String),
    /// Every tool has been asked for: write this text, the manifest.
    Write(String),
}

/// What there is to tell the user after an outcome was recorded.
#[derive(Debug, Clone, Copy, PartialEq, Eq, Structural)]
pub enum Report {
    /// The record came and gave this many dependencies.
    Found { count: usize },
    /// The metadata could not be had; the tool gets no list of dependencies.
    Failed { error: FetchError },
}

/// The state of a run: the tools, how many of them have been asked for, and
/// what was found for them.
pub struct Run {
    tools: Vec<Tool>,
    next: usize,
    resolved: ResolvedSet,
    outcomes: Ghost<Seq<Option<ResponseView>>>,
}

impl Run {
    /// The tools of the run, in input order.
    pub closed spec fn tools(&self) -> Seq<ToolView> {
        tool_views(self.tools@)
    }

    /// The outcomes recorded so far, one for each tool asked for: the record
    /// that came, or none where the fetch failed.
    pub closed spec fn outcomes(&self) -> Seq<Option<ResponseView>> {
        self.outcomes@
    }

    /// The entries recorded so far.
    pub closed spec fn resolved(&self) -> Seq<ResolvedView> {
        self.resolved@
    }

    /// The position in the list of tools agrees with the outcomes recorded.
    pub closed spec fn in_step(&self) -> bool {
        self.next == self.outcomes@.len()
    }

    /// The invariant of a run: the tools are asked for in order, one outcome
    /// each, and the entries are those that the outcomes so far leave.
    pub open spec fn wf(&self) -> bool {
        &&& self.in_step()
        &&& self.outcomes().len() <= self.tools().len()
        &&& self.resolved() == resolved_after(self.tools(), self.outcomes())
    }

    /// True once every tool has its outcome.
    pub open spec fn done(&self) -> bool {
        self.outcomes().len() == self.tools().len()
    }

    /// The tool that is asked for next, while the run is not done.
    pub open spec fn current_tool(&self) -> ToolView
        recommends
            !self.done(),
    {
        self.tools()[self.outcomes().len() as int]
    }

    /// Starts a run over `tools`: nothing is asked for yet.
    pub fn new(tools: Vec<Tool>) -> (run: Run)
        ensures
            run.wf(),
            run.tools() == tool_views(tools@),
            run.outcomes() == Seq::<Option<ResponseView>>::empty(),
            run.resolved() == Seq::<ResolvedView>::empty(),
    {
        Run { tools, next: 0, resolved: ResolvedSet::new(), outcomes: Ghost(Seq::empty()) }
    }

    /// Tells whether every tool has its outcome.
    pub fn is_done(&self) -> (done: bool)
        requires
            self.wf(),
        ensures
            done == self.done(),
    {
        self.next >= self.tools.len()
    }

    /// The tool that is asked for next.
    pub fn current(&self) -> (tool: &Tool)
        requires
            self.wf(),
            !self.done(),
        ensures
            tool@ == self.current_tool(),
    {
        &self.tools[self.next]
    }

    /// What was found so far.
    pub fn found(&self) -> (set: &ResolvedSet)
        ensures
            set@ == self.resolved(),
    {
        &self.resolved
    }

    /// The next thing to do: fetch the metadata of the next tool, in input
    /// order, or write the manifest once every tool has its outcome.
    pub fn next_action(&self) -> (action: Action)
        requires
            self.wf(),
        ensures
            match action {
                Action::Fetch(name) => !self.done() && name@ == self.current_tool().name,
                Action::Write(text) => self.done() && text@ == manifest_text(
                    self.tools(),
                    self.resolved(),
                ),
            },
    {
        if self.next < self.tools.len() {
            Action::Fetch(self.tools[self.next].name.clone())
        } else {
            Action::Write(render(&self.tools, &self.resolved))
        }
    }

    /// Records the outcome of the fetch for the current tool and moves on to
    /// the next. A record gives the tool an entry with the dependencies read
    /// from it; a failure gives it none and is not fatal.
    pub fn record(&mut self, outcome: Result<Response, FetchError>) -> (report: Report)
        requires
            old(self).wf(),
            !old(self).done(),
        ensures
            final(self).wf(),
            final(self).tools() == old(self).tools(),
            final(self).outcomes() == old(self).outcomes().push(kept_record(outcome)),
            final(self).resolved() == match outcome {
                Ok(record) => old(self).resolved().push(
                    ResolvedView { tool: old(self).current_tool().name, deps: parsed(record@) },
                ),
                Err(_) => old(self).resolved(),
            },
            report == match outcome {
                Ok(record) => Report::Found { count: parsed(record@).len() as usize },
                Err(error) => Report::Failed { error },
            },
    {
        let ghost before = self.outcomes@;
        let ghost after = before.push(kept_record(outcome));
        assert(after.drop_last() =~= before);
        assert(self.next < self.tools.len());
        let report = match outcome {
            Ok(record) => {
                let deps = parse_deps(&record);
                let count = deps.len();
                self.resolved.record(self.tools[self.next].name.clone(), deps);
                Report::Found { count }
            },
            Err(error) => Report::Failed { error },
        };
        self.next = self.next + 1;
        self.outcomes = Ghost(after);
        report
    }
}

/// The positions, in the list of tools, of those for which a record came.
pub open spec fn fetched_positions(outcomes: Seq<Option<ResponseView>>) -> Seq<int>
    decreases outcomes.len(),
{
    if outcomes.len() == 0 {
        Seq::empty()
    } else {
        let before = fetched_positions(outcomes.drop_last());
        if outcomes.last() is Some {
            before.push(outcomes.len() - 1)
        } else {
            before
        }
    }
}

/// Every entry comes from one record of its own: entry `k` holds the name of
/// the tool at `fetched_positions(outcomes)[k]` and the dependencies read
/// from the record that came for it, and these positions increase. A tool
/// whose fetch failed leaves no entry.
pub proof fn lemma_entries_after(tools: Seq<ToolView>, outcomes: Seq<Option<ResponseView>>)
    requires
        outcomes.len() <= tools.len(),
    ensures
        resolved_after(tools, outcomes).len() == fetched_positions(outcomes).len(),
        forall|k: int|
            0 <= k < fetched_positions(outcomes).len() ==> {
                let i = #[trigger] fetched_positions(outcomes)[k];
                &&& 0 <= i < outcomes.len()
                &&& outcomes[i] is Some
                &&& resolved_after(tools, outcomes)[k] == ResolvedView {
                    tool: tools[i].name,
                    deps: parsed(outcomes[i].unwrap()),
                }
            },
        forall|k: int, l: int|
            0 <= k < l < fetched_positions(outcomes).len() ==> fetched_positions(outcomes)[k]
                < fetched_positions(outcomes)[l],
        forall|i: int|
            0 <= i < outcomes.len() && (#[trigger] outcomes[i]) is Some ==> fetched_positions(
                outcomes,
            ).contains(i),
    decreases outcomes.len(),
{
    if outcomes.len() > 0 {
        let init = outcomes.drop_last();
        lemma_entries_after(tools, init);
        let before = fetched_positions(init);
        let now = fetched_positions(outcomes);
        assert forall|i: int|
            0 <= i < outcomes.len() && (#[trigger] outcomes[i]) is Some implies now.contains(i) by {
            if i < init.len() {
                assert(init[i] == outcomes[i]);
                let k = choose|k: int| 0 <= k < before.len() && before[k] == i;
                assert(now[k] == i);
            } else {
                assert(now[now.len() - 1] == i);
            }
        }
    }
}

/// The position of the record that decides what is listed for the tools
/// called `name`: the first record that came for a tool of that name.
pub open spec fn deciding(
    tools: Seq<ToolView>,
    outcomes: Seq<Option<ResponseView>>,
    name: Seq<char>,
) -> Option<int>
    recommends
        outcomes.len() <= tools.len(),
    decreases outcomes.len(),
{
    if outcomes.len() == 0 {
        None
    } else {
        match deciding(tools, outcomes.drop_last(), name) {
            Some(i) => Some(i),
            None => if outcomes.last() is Some && tools[outcomes.len() - 1].name == name {
                Some(outcomes.len() - 1)
            } else {
                None
            },
        }
    }
}

/// `deciding` gives the first position at which a record came for a tool
/// called `name`, and none exactly when no such record came.
pub proof fn lemma_deciding(
    tools: Seq<ToolView>,
    outcomes: Seq<Option<ResponseView>>,
    name: Seq<char>,
)
    requires
        outcomes.len() <= tools.len(),
    ensures
        match deciding(tools, outcomes, name) {
            Some(i) => 0 <= i < outcomes.len() && outcomes[i] is Some && tools[i].name == name
                && forall|j: int|
                0 <= j < i ==> !((#[trigger] outcomes[j]) is Some && tools[j].name == name),
            None => forall|j: int|
                0 <= j < outcomes.len() ==> !((#[trigger] outcomes[j]) is Some && tools[j].name
                    == name),
        },
    decreases outcomes.len(),
{
    if outcomes.len() > 0 {
        let init = outcomes.drop_last();
        lemma_deciding(tools, init, name);
        assert forall|j: int| 0 <= j < init.len() implies init[j] == outcomes[j] by {}
    }
}

/// What the entries hold for `name` is what was read from the deciding
/// record; they hold nothing for it where there is no such record.
pub proof fn lemma_lookup_after(
    tools: Seq<ToolView>,
    outcomes: Seq<Option<ResponseView>>,
    name: Seq<char>,
)
    requires
        outcomes.len() <= tools.len(),
    ensures
        lookup(resolved_after(tools, outcomes), name) == match deciding(tools, outcomes, name) {
            Some(i) => Some(parsed(outcomes[i].unwrap())),
            None => None,
        },
    decreases outcomes.len(),
{
    if outcomes.len() > 0 {
        let init = outcomes.drop_last();
        lemma_lookup_after(tools, init, name);
        lemma_deciding(tools, init, name);
        if let Some(record) = outcomes.last() {
            let entry = ResolvedView { tool: tools[outcomes.len() - 1].name, deps: parsed(record) };
            lemma_lookup_push(resolved_after(tools, init), entry, name);
        }
        if let Some(i) = deciding(tools, init, name) {
        }
    }
}

/// A tool for which no record came, nor for any tool of the same name, has
/// a section of three lines: its header, its version and the empty line.
/// It has no block of dependencies.
pub proof fn lemma_failed_tool_has_no_block(
    tools: Seq<ToolView>,
    outcomes: Seq<Option<ResponseView>>,
    i: int,
)
    requires
        outcomes.len() <= tools.len(),
        0 <= i < tools.len(),
        forall|j: int|
            0 <= j < outcomes.len() && tools[j].name == tools[i].name ==> (
            #[trigger] outcomes[j]) is None,
    ensures
        section_lines(tools[i], resolved_after(tools, outcomes)) == seq![
            header_line(tools[i]),
            version_line(tools[i]),
            Seq::<char>::empty(),
        ],
{
    lemma_lookup_after(tools, outcomes, tools[i].name);
    lemma_deciding(tools, outcomes, tools[i].name);
}

/// A tool for which a record came lists the dependencies read from that
/// record, provided that no record came earlier for a tool of the same name.
pub proof fn lemma_fetched_tool_lists_its_dependencies(
    tools: Seq<ToolView>,
    outcomes: Seq<Option<ResponseView>>,
    i: int,
)
    requires
        outcomes.len() <= tools.len(),
        0 <= i < outcomes.len(),
        outcomes[i] is Some,
        forall|j: int|
            0 <= j < i && tools[j].name == tools[i].name ==> (#[trigger] outcomes[j]) is None,
    ensures
        listed(tools[i], resolved_after(tools, outcomes)) == parsed(outcomes[i].unwrap()),
{
    lemma_lookup_after(tools, outcomes, tools[i].name);
    lemma_deciding(tools, outcomes, tools[i].name);
}

/// With tools of pairwise distinct names, the manifest lists, section by
/// section, all the dependencies of the entries, in the order of the entries.
pub proof fn lemma_listed_all_after(
    tools: Seq<ToolView>,
    outcomes: Seq<Option<ResponseView>>,
    n: int,
)
    requires
        outcomes.len() == tools.len(),
        0 <= n <= tools.len(),
        forall|i: int, j: int|
            0 <= i < j < tools.len() ==> (#[trigger] tools[i]).name != (#[trigger] tools[j]).name,
    ensures
        listed_all(tools.take(n), resolved_after(tools, outcomes)) == all_dependencies(
            resolved_after(tools, outcomes.take(n)),
        ),
    decreases n,
{
    if n > 0 {
        lemma_listed_all_after(tools, outcomes, n - 1);
        let i = n - 1;
        assert(tools.take(n).drop_last() =~= tools.take(i));
        assert(outcomes.take(n).drop_last() =~= outcomes.take(i));
        let before = resolved_after(tools, outcomes.take(i));
        match outcomes[i] {
            Some(record) => {
                lemma_fetched_tool_lists_its_dependencies(tools, outcomes, i);
                let entry = ResolvedView { tool: tools[i].name, deps: parsed(record) };
                assert(before.push(entry).drop_last() =~= before);
            },
            None => {
                lemma_lookup_after(tools, outcomes, tools[i].name);
                lemma_deciding(tools, outcomes, tools[i].name);
            },
        }
    }
}

/// Reading the manifest of a finished run gives back all the dependencies
/// that the run recorded, in the order in which it recorded them.
///
/// This holds where the tools have pairwise distinct names, where the header
/// line and the version line of each tool declare nothing (as they do for a
/// name and a version without line feed), and where every dependency read
/// from a record reads back.
pub proof fn lemma_run_reads_back(tools: Seq<ToolView>, outcomes: Seq<Option<ResponseView>>)
    requires
        outcomes.len() == tools.len(),
        forall|i: int, j: int|
            0 <= i < j < tools.len() ==> (#[trigger] tools[i]).name != (#[trigger] tools[j]).name,
        forall|i: int|
            0 <= i < tools.len() ==> reads_nothing(header_line(#[trigger] tools[i]))
                && reads_nothing(version_line(tools[i])),
        forall|i: int, k: int|
            0 <= i < outcomes.len() && outcomes[i] is Some && 0 <= k < parsed(
                outcomes[i].unwrap(),
            ).len() ==> reads_back(#[trigger] parsed(outcomes[i].unwrap())[k]),
    ensures
        read_dependencies(manifest_text(tools, resolved_after(tools, outcomes)))
            == all_dependencies(resolved_after(tools, outcomes)),
{
    let resolved = resolved_after(tools, outcomes);
    assert forall|i: int, j: int|
        0 <= i < tools.len() && 0 <= j < listed(tools[i], resolved).len() implies reads_back(
        #[trigger] listed(tools[i], resolved)[j],
    ) by {
        lemma_lookup_after(tools, outcomes, tools[i].name);
        lemma_deciding(tools, outcomes, tools[i].name);
        let d = deciding(tools, outcomes, tools[i].name).unwrap();
    }
    lemma_manifest_reads_back(tools, resolved);
    lemma_listed_all_after(tools, outcomes, tools.len() as int);
    assert(tools.take(tools.len() as int) =~= tools);
    assert(outcomes.take(tools.len() as int) =~= outcomes);
}

} // verus!
