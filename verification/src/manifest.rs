//! The text manifest: one section per tool, with its pinned version and the
//! dependencies found for it.

use crate::requirement::{dep_views, pinned, Dep, DepView};
use crate::resolved::{lookup, ResolvedSet, ResolvedView};
use crate::text::{
    find_char, find_pattern, first_occurrence, lemma_first_occurrence, matches_at, occurs_at,
    slice, split_lines, to_chars,
};
use crate::tools::{tool_views, Tool, ToolView};
use vstd::prelude::*;
use vstd::string::*;

verus! {

/// The line that opens the section of a tool: its name in square brackets.
pub open spec fn header_line(tool: ToolView) -> Seq<char> {
    seq!['['] + tool.name + seq![']']
}

/// The line that gives the pinned version of a tool.
pub open spec fn version_line(tool: ToolView) -> Seq<char> {
    "version = \""@ + tool.version + seq!['"']
}

/// The line that opens a block of dependencies.
pub open spec fn block_open_line() -> Seq<char> {
    "dependencies = ["@
}

/// The line that closes a block of dependencies.
pub open spec fn block_close_line() -> Seq<char> {
    seq![']']
}

/// What a dependency line begins with: four spaces and a double quote.
pub open spec fn dependency_prefix() -> Seq<char> {
    "    \""@
}

/// What a dependency line ends with: a double quote and a comma.
pub open spec fn dependency_suffix() -> Seq<char> {
    "\","@
}

/// The line of one dependency: four spaces, then the pinned requirement in
/// double quotes, then a comma.
pub open spec fn dependency_line(dep: DepView) -> Seq<char> {
    dependency_prefix() + pinned(dep) + dependency_suffix()
}

/// The lines of the dependencies, one each, in their order.
pub open spec fn dependency_lines(deps: Seq<DepView>) -> Seq<Seq<char>> {
    Seq::new(deps.len(), |i: int| dependency_line(deps[i]))
}

/// The dependencies that the section of `tool` lists: those of its first
/// entry, none where it has no entry.
pub open spec fn listed(tool: ToolView, resolved: Seq<ResolvedView>) -> Seq<DepView> {
    match lookup(resolved, tool.name) {
        Some(deps) => deps,
        None => Seq::empty(),
    }
}

/// The block of dependencies of a section; no line at all where nothing is listed.
pub open spec fn block_lines(deps: Seq<DepView>) -> Seq<Seq<char>> {
    if deps.len() == 0 {
        Seq::empty()
    } else {
        seq![block_open_line()] + dependency_lines(deps) + seq![block_close_line()]
    }
}

/// The lines of the section of one tool, the closing empty line included.
pub open spec fn section_lines(tool: ToolView, resolved: Seq<ResolvedView>) -> Seq<Seq<char>> {
    seq![header_line(tool), version_line(tool)] + block_lines(listed(tool, resolved)) + seq![
        Seq::<char>::empty(),
    ]
}

/// The lines of the manifest: the sections of the tools in their order.
pub open spec fn manifest_lines(tools: Seq<ToolView>, resolved: Seq<ResolvedView>) -> Seq<
    Seq<char>,
>
    decreases tools.len(),
{
    if tools.len() == 0 {
        Seq::empty()
    } else {
        manifest_lines(tools.drop_last(), resolved) + section_lines(tools.last(), resolved)
    }
}

/// The text made of the given lines, each ended by a line feed.
pub open spec fn join_lines(lines: Seq<Seq<char>>) -> Seq<char>
    decreases lines.len(),
{
    if lines.len() == 0 {
        Seq::empty()
    } else {
        join_lines(lines.drop_last()) + lines.last() + seq!['\n']
    }
}

/// The text of the manifest.
pub open spec fn manifest_text(tools: Seq<ToolView>, resolved: Seq<ResolvedView>) -> Seq<char> {
    join_lines(manifest_lines(tools, resolved))
}

/// What stands between the prefix and the suffix of a dependency line; none
/// where `line` is no such line.
pub open spec fn quoted_content(line: Seq<char>) -> Option<Seq<char>> {
    let prefix = dependency_prefix();
    let suffix = dependency_suffix();
    if prefix.len() + suffix.len() <= line.len() && occurs_at(line, prefix, 0) && occurs_at(
        line,
        suffix,
        line.len() - suffix.len(),
    ) {
        Some(line.subrange(prefix.len() as int, line.len() - suffix.len()))
    } else {
        None
    }
}

/// The dependency that a pinned requirement names: it is split at its first `==`.
pub open spec fn unpinned(content: Seq<char>) -> Option<DepView> {
    match first_occurrence(content, "=="@) {
        Some(p) => Some(DepView { name: content.take(p), version: content.skip(p + 2) }),
        None => None,
    }
}

/// The dependency that one line of a manifest declares, if it declares one.
pub open spec fn read_line(line: Seq<char>) -> Option<DepView> {
    match quoted_content(line) {
        Some(content) => unpinned(content),
        None => None,
    }
}

/// The dependencies that the given lines declare, in their order.
pub open spec fn read_lines(lines: Seq<Seq<char>>) -> Seq<DepView>
    decreases lines.len(),
{
    if lines.len() == 0 {
        Seq::empty()
    } else {
        let rest = read_lines(lines.drop_first());
        match read_line(lines.first()) {
            Some(dep) => seq![dep] + rest,
            None => rest,
        }
    }
}

/// The dependencies that a manifest text declares, in their order.
pub open spec fn read_dependencies(text: Seq<char>) -> Seq<DepView> {
    read_lines(split_lines(text))
}

/// Appends `line` and a line feed to `text`.
fn push_line(text: &mut String, line: &str, Ghost(lines): Ghost<Seq<Seq<char>>>)
    requires
        old(text)@ == join_lines(lines),
    ensures
        final(text)@ == join_lines(lines.push(line@)),
{
    text.append(line);
    proof {
        reveal_strlit("\n");
    }
    text.append("\n");
    assert(lines.push(line@).drop_last() =~= lines);
}

/// Renders the manifest of `tools`: for each tool, in order, its name, its
/// version and, where `resolved` lists dependencies for it, one line for each.
pub fn render(tools: &Vec<Tool>, resolved: &ResolvedSet) -> (text: String)
    ensures
        text@ == manifest_text(tool_views(tools@), resolved@),
{
    let mut text = String::new();
    let ghost mut lines: Seq<Seq<char>> = Seq::empty();
    let mut i: usize = 0;
    while i < tools.len()
        invariant
            i <= tools.len(),
            text@ == join_lines(lines),
            lines == manifest_lines(tool_views(tools@).take(i as int), resolved@),
        decreases tools.len() - i,
    {
        let tool = &tools[i];
        proof {
            reveal_strlit("[");
            reveal_strlit("]");
            reveal_strlit("\"");
        }
        let header = String::from_str("[").concat(tool.name.as_str()).concat("]");
        assert(header@ =~= header_line(tool@));
        push_line(&mut text, header.as_str(), Ghost(lines));
        proof {
            lines = lines.push(header_line(tool@));
        }
        let version = String::from_str("version = \"").concat(tool.version.as_str()).concat("\"");
        assert(version@ =~= version_line(tool@));
        push_line(&mut text, version.as_str(), Ghost(lines));
        proof {
            lines = lines.push(version_line(tool@));
        }
        let ghost deps_listed = listed(tool@, resolved@);
        if let Some(deps) = resolved.lookup(&tool.name) {
            if deps.len() > 0 {
                push_line(&mut text, "dependencies = [", Ghost(lines));
                proof {
                    lines = lines.push(block_open_line());
                }
                let ghost opened = lines;
                let mut k: usize = 0;
                while k < deps.len()
                    invariant
                        k <= deps.len(),
                        dep_views(deps@) == deps_listed,
                        text@ == join_lines(lines),
                        lines == opened + dependency_lines(deps_listed).take(k as int),
                    decreases deps.len() - k,
                {
                    let line = String::from_str("    \"").concat(
                        deps[k].to_txt_str().as_str(),
                    ).concat("\",");
                    push_line(&mut text, line.as_str(), Ghost(lines));
                    proof {
                        lines = lines.push(line@);
                    }
                    k += 1;
                }
                proof {
                    assert("]"@ =~= block_close_line());
                }
                push_line(&mut text, "]", Ghost(lines));
                proof {
                    lines = lines.push(block_close_line());
                }
            }
        }
        proof {
            reveal_strlit("");
            assert(""@ =~= Seq::<char>::empty());
        }
        push_line(&mut text, "", Ghost(lines));
        proof {
            lines = lines.push(Seq::<char>::empty());
            let done = tool_views(tools@).take(i + 1);
            assert(done.drop_last() =~= tool_views(tools@).take(i as int));
        }
        i += 1;
    }
    assert(tool_views(tools@).take(tools@.len() as int) =~= tool_views(tools@));
    text
}

/// Reads the dependency of one line, which is `chars[start..stop]` of `text`.
fn read_one(text: &str, chars: &Vec<char>, start: usize, stop: usize) -> (dep: Option<Dep>)
    requires
        chars@ == text@,
        start <= stop <= chars.len(),
    ensures
        match dep {
            Some(d) => read_line(chars@.subrange(start as int, stop as int)) == Some(d@),
            None => read_line(chars@.subrange(start as int, stop as int)) is None,
        },
{
    let line = slice(chars, start, stop);
    let prefix = to_chars("    \"");
    let suffix = to_chars("\",");
    if line.len() < prefix.len() || line.len() - prefix.len() < suffix.len() {
        return None;
    }
    let close = line.len() - suffix.len();
    if !matches_at(&line, &prefix, 0) || !matches_at(&line, &suffix, close) {
        return None;
    }
    let content = slice(&line, prefix.len(), close);
    let mark = to_chars("==");
    proof {
        reveal_strlit("==");
        lemma_first_occurrence(content@, mark@);
    }
    match find_pattern(&content, &mark) {
        Some(p) => {
            let from = start + prefix.len();
            let name = text.substring_char(from, from + p);
            let version = text.substring_char(from + p + mark.len(), start + close);
            assert(name@ =~= content@.take(p as int));
            assert(version@ =~= content@.skip(p + 2));
            Some(Dep::new_dep(name, version))
        },
        None => None,
    }
}

/// Reads a manifest back: the dependencies that its lines declare, in the
/// order of the lines. Lines that declare none are passed over.
pub fn read_manifest(text: &str) -> (deps: Vec<Dep>)
    ensures
        dep_views(deps@) == read_dependencies(text@),
{
    let chars = to_chars(text);
    let mut deps: Vec<Dep> = Vec::new();
    let mut start: usize = 0;
    assert(chars@.skip(0) =~= chars@);
    loop
        invariant_except_break
            start <= chars.len(),
            chars@ == text@,
            read_dependencies(text@) == dep_views(deps@) + read_lines(
                split_lines(chars@.skip(start as int)),
            ),
        ensures
            dep_views(deps@) == read_dependencies(text@),
        decreases chars.len() - start,
    {
        let ghost rest = chars@.skip(start as int);
        let stop = find_char(&chars, start, '\n');
        let found = read_one(text, &chars, start, stop);
        let ghost lines = split_lines(rest);
        assert(lines.first() == chars@.subrange(start as int, stop as int));
        if let Some(dep) = found {
            deps.push(dep);
        }
        if stop == chars.len() {
            assert(read_lines(lines.drop_first()) =~= Seq::<DepView>::empty());
            break;
        }
        assert(rest.skip(stop - start + 1) =~= chars@.skip(stop + 1));
        assert(lines.drop_first() =~= split_lines(chars@.skip(stop + 1)));
        start = stop + 1;
    }
    deps
}

} // verus!
