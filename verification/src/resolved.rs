//! The dependencies found so far, tool by tool.

use crate::requirement::{dep_views, Dep, DepView};
use vstd::prelude::*;

verus! {

/// Mathematical value of a [`Resolved`] entry.
pub struct ResolvedView {
    pub tool: Seq<char>,
    pub deps: Seq<DepView>,
}

/// The dependencies of one tool, in the order in which its requirements listed them.
#[derive(Debug, Clone)]
pub struct Resolved {
    pub tool: String,
    pub deps: Vec<Dep>,
}

impl View for Resolved {
    type V = ResolvedView;

    open spec fn view(&self) -> ResolvedView {
        ResolvedView { tool: self.tool@, deps: dep_views(self.deps@) }
    }
}

/// The entries recorded so far, oldest first. A tool may occur more than
/// once; a lookup then answers with its oldest entry.
#[derive(Debug, Clone)]
pub struct ResolvedSet {
    pub entries: Vec<Resolved>,
}

impl View for ResolvedSet {
    type V = Seq<ResolvedView>;

    open spec fn view(&self) -> Seq<ResolvedView> {
        Seq::new(self.entries@.len(), |i: int| self.entries@[i]@)
    }
}

/// The dependencies of the first entry for `tool` at or after position `from`.
pub open spec fn lookup_from(entries: Seq<ResolvedView>, tool: Seq<char>, from: int) -> Option<
    Seq<DepView>,
>
    decreases entries.len() - from,
{
    if from < 0 || from >= entries.len() {
        None
    } else if entries[from].tool == tool {
        Some(entries[from].deps)
    } else {
        lookup_from(entries, tool, from + 1)
    }
}

/// The dependencies of the first entry for `tool`, if there is one.
pub open spec fn lookup(entries: Seq<ResolvedView>, tool: Seq<char>) -> Option<Seq<DepView>> {
    lookup_from(entries, tool, 0)
}

/// All the dependencies of the entries, entry after entry.
pub open spec fn all_dependencies(entries: Seq<ResolvedView>) -> Seq<DepView>
    decreases entries.len(),
{
    if entries.len() == 0 {
        Seq::empty()
    } else {
        all_dependencies(entries.drop_last()) + entries.last().deps
    }
}

/// A lookup from `from` on answers with the first entry for `tool` that it
/// meets, and with nothing exactly when it meets none.
pub proof fn lemma_lookup_from(entries: Seq<ResolvedView>, tool: Seq<char>, from: int)
    requires
        0 <= from,
    ensures
        match lookup_from(entries, tool, from) {
            Some(deps) => exists|k: int|
                from <= k < entries.len() && (#[trigger] entries[k]).tool == tool
                    && entries[k].deps == deps && forall|j: int|
                    from <= j < k ==> (#[trigger] entries[j]).tool != tool,
            None => forall|j: int|
                from <= j < entries.len() ==> (#[trigger] entries[j]).tool != tool,
        },
    decreases entries.len() - from,
{
    if from < entries.len() && entries[from].tool != tool {
        lemma_lookup_from(entries, tool, from + 1);
    }
}

/// An entry appended to the set is found only where no earlier entry is for
/// the same tool.
pub proof fn lemma_lookup_push(entries: Seq<ResolvedView>, entry: ResolvedView, tool: Seq<char>)
    ensures
        lookup(entries.push(entry), tool) == match lookup(entries, tool) {
            Some(deps) => Some(deps),
            None => if entry.tool == tool {
                Some(entry.deps)
            } else {
                None
            },
        },
{
    lemma_lookup_push_from(entries, entry, tool, 0);
}

/// The statement of `lemma_lookup_push`, for a lookup from `from` on.
pub proof fn lemma_lookup_push_from(
    entries: Seq<ResolvedView>,
    entry: ResolvedView,
    tool: Seq<char>,
    from: int,
)
    requires
        0 <= from <= entries.len(),
    ensures
        lookup_from(entries.push(entry), tool, from) == match lookup_from(entries, tool, from) {
            Some(deps) => Some(deps),
            None => if entry.tool == tool {
                Some(entry.deps)
            } else {
                None
            },
        },
    decreases entries.len() - from,
{
    let more = entries.push(entry);
    if from < entries.len() {
        if entries[from].tool != tool {
            lemma_lookup_push_from(entries, entry, tool, from + 1);
        }
    } else {
        assert(lookup_from(more, tool, from + 1) is None);
    }
}

impl ResolvedSet {
    /// A set with no entry.
    pub fn new() -> (set: ResolvedSet)
        ensures
            set@ == Seq::<ResolvedView>::empty(),
    {
        ResolvedSet { entries: Vec::new() }
    }

    /// The number of entries.
    pub fn len(&self) -> (n: usize)
        ensures
            n == self@.len(),
    {
        self.entries.len()
    }

    /// Appends an entry for `tool`; earlier entries stay as they are.
    pub fn record(&mut self, tool: String, deps: Vec<Dep>)
        ensures
            final(self)@ == old(self)@.push(ResolvedView { tool: tool@, deps: dep_views(deps@) }),
    {
        self.entries.push(Resolved { tool, deps });
    }

    /// The dependencies recorded first for `tool`.
    pub fn lookup(&self, tool: &String) -> (found: Option<&Vec<Dep>>)
        ensures
            match found {
                Some(deps) => lookup(self@, tool@) == Some(dep_views(deps@)),
                None => lookup(self@, tool@) is None,
            },
    {
        let mut i: usize = 0;
        while i < self.entries.len()
            invariant
                i <= self.entries.len(),
                lookup(self@, tool@) == lookup_from(self@, tool@, i as int),
            decreases self.entries.len() - i,
        {
            if self.entries[i].tool == *tool {
                return Some(&self.entries[i].deps);
            }
            i += 1;
        }
        None
    }
}

} // verus!
