//! Reading a rendered manifest gives back the dependencies that it lists.

use crate::manifest::{
    block_close_line, block_lines, block_open_line, dependency_line, dependency_lines,
    dependency_prefix, dependency_suffix, header_line, join_lines, listed, manifest_lines,
    manifest_text, quoted_content, read_dependencies, read_line, read_lines, section_lines,
    version_line,
};
use crate::requirement::{
    extract_dependency, latest, leading_operator, lemma_leading_operator, lemma_strip_quotes,
    operators, pinned, requirement_token, DepView,
};
use crate::resolved::ResolvedView;
use crate::text::{
    contains_pattern, first_occurrence, free_of, lemma_first_occurrence,
    lemma_first_occurrence_unique, lemma_free_of, lemma_split_lines_add, occurs_at, split_lines,
};
use crate::tools::ToolView;
use vstd::prelude::*;

verus! {

/// The dependencies that the lines declare when each line is read as a text
/// of its own, in the order of the lines.
pub open spec fn read_each(lines: Seq<Seq<char>>) -> Seq<DepView>
    decreases lines.len(),
{
    if lines.len() == 0 {
        Seq::empty()
    } else {
        read_each(lines.drop_last()) + read_dependencies(lines.last())
    }
}

/// All the dependencies that the manifest of `tools` lists, section by section.
pub open spec fn listed_all(tools: Seq<ToolView>, resolved: Seq<ResolvedView>) -> Seq<DepView>
    decreases tools.len(),
{
    if tools.len() == 0 {
        Seq::empty()
    } else {
        listed_all(tools.drop_last(), resolved) + listed(tools.last(), resolved)
    }
}

/// True of a dependency whose line can be read back: neither its name nor
/// its version holds a line feed, and its name neither holds `==` nor ends
/// in `=`, so that the first `==` of the pinned text is the one between them.
pub open spec fn reads_back(dep: DepView) -> bool {
    &&& free_of(dep.name, '\n')
    &&& free_of(dep.version, '\n')
    &&& !contains_pattern(dep.name, "=="@)
    &&& (dep.name.len() > 0 ==> dep.name.last() != '=')
}

/// True of a text none of whose lines declares a dependency.
pub open spec fn reads_nothing(text: Seq<char>) -> bool {
    read_dependencies(text) == Seq::<DepView>::empty()
}

/// The manifest of two lists of tools, one after the other, is the manifest
/// of the first followed by that of the second.
pub proof fn lemma_manifest_lines_add(
    a: Seq<ToolView>,
    b: Seq<ToolView>,
    resolved: Seq<ResolvedView>,
)
    ensures
        manifest_lines(a + b, resolved) == manifest_lines(a, resolved) + manifest_lines(
            b,
            resolved,
        ),
    decreases b.len(),
{
    if b.len() > 0 {
        lemma_manifest_lines_add(a, b.drop_last(), resolved);
        assert((a + b).drop_last() =~= a + b.drop_last());
    }
}

/// The manifest holds the section of every tool, in input order: the lines
/// of tool `i` stand between the manifest of the tools before it and the
/// manifest of the tools after it, whatever was found for any of them.
pub proof fn lemma_section_of_each_tool(
    tools: Seq<ToolView>,
    resolved: Seq<ResolvedView>,
    i: int,
)
    requires
        0 <= i < tools.len(),
    ensures
        manifest_lines(tools, resolved) == manifest_lines(tools.take(i), resolved) + section_lines(
            tools[i],
            resolved,
        ) + manifest_lines(tools.skip(i + 1), resolved),
{
    let upto = tools.take(i + 1);
    assert(tools =~= upto + tools.skip(i + 1));
    lemma_manifest_lines_add(upto, tools.skip(i + 1), resolved);
    assert(upto.drop_last() =~= tools.take(i));
}

/// Reading distributes over concatenation of line sequences.
pub proof fn lemma_read_lines_add(a: Seq<Seq<char>>, b: Seq<Seq<char>>)
    ensures
        read_lines(a + b) == read_lines(a) + read_lines(b),
    decreases a.len(),
{
    if a.len() > 0 {
        lemma_read_lines_add(a.drop_first(), b);
        assert((a + b).drop_first() =~= a.drop_first() + b);
    }
}

/// Two texts put together with a line feed between them declare what the
/// first declares, then what the second declares.
pub proof fn lemma_read_add(a: Seq<char>, b: Seq<char>)
    ensures
        read_dependencies(a + seq!['\n'] + b) == read_dependencies(a) + read_dependencies(b),
{
    lemma_split_lines_add(a, b);
    lemma_read_lines_add(split_lines(a), split_lines(b));
}

/// A text without a line feed declares what its only line declares.
pub proof fn lemma_read_single_line(line: Seq<char>)
    requires
        free_of(line, '\n'),
    ensures
        read_dependencies(line) == match read_line(line) {
            Some(dep) => seq![dep],
            None => Seq::empty(),
        },
{
    lemma_free_of(line, '\n');
    assert(read_lines(split_lines(line).drop_first()) =~= Seq::<DepView>::empty());
}

/// Reading lines that were joined, followed by more text, gives what each
/// line declares and then what the rest declares.
pub proof fn lemma_read_joined(lines: Seq<Seq<char>>, rest: Seq<char>)
    ensures
        read_dependencies(join_lines(lines) + rest) == read_each(lines) + read_dependencies(rest),
    decreases lines.len(),
{
    if lines.len() > 0 {
        let init = lines.drop_last();
        let last = lines.last();
        lemma_read_joined(init, last + seq!['\n'] + rest);
        lemma_read_add(last, rest);
        assert(join_lines(lines) + rest =~= join_lines(init) + (last + seq!['\n'] + rest));
    }
}

/// `read_each` distributes over concatenation of line sequences.
pub proof fn lemma_read_each_add(a: Seq<Seq<char>>, b: Seq<Seq<char>>)
    ensures
        read_each(a + b) == read_each(a) + read_each(b),
    decreases b.len(),
{
    if b.len() > 0 {
        lemma_read_each_add(a, b.drop_last());
        assert((a + b).drop_last() =~= a + b.drop_last());
    }
}

/// A single line, read as a text of its own, declares what that text declares.
pub proof fn lemma_read_each_one(line: Seq<char>)
    ensures
        read_each(seq![line]) == read_dependencies(line),
{
    assert(read_each(seq![line].drop_last()) =~= Seq::<DepView>::empty());
}

/// The empty text declares nothing.
pub proof fn lemma_read_empty()
    ensures
        reads_nothing(Seq::<char>::empty()),
{
    reveal_strlit("\",");
    lemma_read_single_line(Seq::<char>::empty());
}

/// The line of a dependency that reads back declares that dependency and
/// nothing else.
pub proof fn lemma_read_dependency_line(dep: DepView)
    requires
        reads_back(dep),
    ensures
        read_dependencies(dependency_line(dep)) == seq![dep],
{
    reveal_strlit("    \"");
    reveal_strlit("\",");
    reveal_strlit("==");
    let prefix = dependency_prefix();
    let suffix = dependency_suffix();
    let mark = "=="@;
    let content = pinned(dep);
    let line = dependency_line(dep);
    assert(line.subrange(0, 5) =~= prefix);
    assert(line.subrange(line.len() - 2, line.len() as int) =~= suffix);
    assert(quoted_content(line) == Some(content));
    let n = dep.name.len() as int;
    assert(content.subrange(n, n + 2) =~= mark);
    assert forall|q: int| 0 <= q < n implies !occurs_at(content, mark, q) by {
        if occurs_at(content, mark, q) {
            let window = content.subrange(q, q + 2);
            assert(window[0] == '=' && window[1] == '=');
            if q + 1 < n {
                assert(dep.name.subrange(q, q + 2) =~= mark);
                assert(occurs_at(dep.name, mark, q));
            }
        }
    }
    lemma_first_occurrence_unique(content, mark, n);
    assert(content.take(n) =~= dep.name);
    assert(content.skip(n + 2) =~= dep.version);
    lemma_read_single_line(line);
}

/// A dependency read from a requirement reads back, unless the token of the
/// requirement holds a line feed or the name ends in `=`. In particular the
/// name never holds `==`: a token that holds it is split at its first `==`.
pub proof fn lemma_extracted_reads_back(raw: Seq<char>)
    requires
        free_of(requirement_token(raw), '\n'),
        extract_dependency(raw) matches Some(dep) && (dep.name.len() > 0 ==> dep.name.last()
            != '='),
    ensures
        extract_dependency(raw) matches Some(dep) && reads_back(dep),
{
    reveal_strlit("==");
    reveal_strlit("latest");
    let token = requirement_token(raw);
    let dep = extract_dependency(raw).unwrap();
    let mark = "=="@;
    lemma_leading_operator(token);
    if let Some(k) = leading_operator(token) {
        let op = operators()[k];
        lemma_first_occurrence(token, op);
        let p = first_occurrence(token, op).unwrap();
        let a = lemma_strip_quotes(token.skip(p + op.len()));
        assert(free_of(dep.version, '\n'));
        assert(free_of(dep.name, '\n'));
        if contains_pattern(dep.name, mark) {
            let q = choose|q: int| occurs_at(dep.name, mark, q);
            assert(token.subrange(q, q + 2) =~= dep.name.subrange(q, q + 2));
            assert(occurs_at(token, mark, q));
        }
    }
}

/// The lines of dependencies that read back declare those dependencies.
pub proof fn lemma_read_dependency_lines(deps: Seq<DepView>)
    requires
        forall|j: int| 0 <= j < deps.len() ==> reads_back(#[trigger] deps[j]),
    ensures
        read_each(dependency_lines(deps)) == deps,
    decreases deps.len(),
{
    if deps.len() > 0 {
        let init = deps.drop_last();
        lemma_read_dependency_lines(init);
        lemma_read_dependency_line(deps.last());
        assert(dependency_lines(deps).drop_last() =~= dependency_lines(init));
    }
}

/// A block of dependencies that read back declares those dependencies.
pub proof fn lemma_read_block(deps: Seq<DepView>)
    requires
        forall|j: int| 0 <= j < deps.len() ==> reads_back(#[trigger] deps[j]),
    ensures
        read_each(block_lines(deps)) == deps,
{
    if deps.len() > 0 {
        reveal_strlit("    \"");
        reveal_strlit("dependencies = [");
        let open = block_open_line();
        let close = block_close_line();
        lemma_read_single_line(open);
        assert(!occurs_at(open, dependency_prefix(), 0)) by {
            if occurs_at(open, dependency_prefix(), 0) {
                assert(open.subrange(0, 5)[0] == 'd');
            }
        }
        lemma_read_single_line(close);
        lemma_read_dependency_lines(deps);
        lemma_read_each_add(seq![open], dependency_lines(deps));
        lemma_read_each_add(seq![open] + dependency_lines(deps), seq![close]);
        lemma_read_each_one(open);
        lemma_read_each_one(close);
    }
}

/// The section of a tool declares the dependencies that it lists, provided
/// that they read back and that its first two lines declare nothing.
pub proof fn lemma_read_section(tool: ToolView, resolved: Seq<ResolvedView>)
    requires
        reads_nothing(header_line(tool)),
        reads_nothing(version_line(tool)),
        forall|j: int|
            0 <= j < listed(tool, resolved).len() ==> reads_back(
                #[trigger] listed(tool, resolved)[j],
            ),
    ensures
        read_each(section_lines(tool, resolved)) == listed(tool, resolved),
{
    let deps = listed(tool, resolved);
    let head = seq![header_line(tool), version_line(tool)];
    let foot = seq![Seq::<char>::empty()];
    lemma_read_block(deps);
    lemma_read_empty();
    lemma_read_each_add(head, block_lines(deps));
    lemma_read_each_add(head + block_lines(deps), foot);
    lemma_read_each_one(header_line(tool));
    lemma_read_each_one(Seq::<char>::empty());
    assert(head.drop_last() =~= seq![header_line(tool)]);
}

/// A tool whose name and version hold no line feed has a header line and a
/// version line that declare nothing.
pub proof fn lemma_plain_tool_reads_nothing(tool: ToolView)
    requires
        free_of(tool.name, '\n'),
        free_of(tool.version, '\n'),
    ensures
        reads_nothing(header_line(tool)),
        reads_nothing(version_line(tool)),
{
    reveal_strlit("    \"");
    reveal_strlit("version = \"");
    let header = header_line(tool);
    let version = version_line(tool);
    lemma_read_single_line(header);
    lemma_read_single_line(version);
    assert(!occurs_at(header, dependency_prefix(), 0)) by {
        if occurs_at(header, dependency_prefix(), 0) {
            assert(header.subrange(0, 5)[0] == '[');
        }
    }
    assert(!occurs_at(version, dependency_prefix(), 0)) by {
        if occurs_at(version, dependency_prefix(), 0) {
            assert(version.subrange(0, 5)[0] == 'v');
        }
    }
}

/// Reading a rendered manifest gives back, in order, the dependencies that
/// its sections list.
///
/// This holds where every listed dependency reads back and where the header
/// line and the version line of each tool declare nothing, which is so for
/// every tool whose name and version hold no line feed.
pub proof fn lemma_manifest_reads_back(tools: Seq<ToolView>, resolved: Seq<ResolvedView>)
    requires
        forall|i: int|
            0 <= i < tools.len() ==> reads_nothing(header_line(#[trigger] tools[i]))
                && reads_nothing(version_line(tools[i])),
        forall|i: int, j: int|
            0 <= i < tools.len() && 0 <= j < listed(tools[i], resolved).len() ==> reads_back(
                #[trigger] listed(tools[i], resolved)[j],
            ),
    ensures
        read_dependencies(manifest_text(tools, resolved)) == listed_all(tools, resolved),
{
    lemma_read_manifest_lines(tools, resolved);
    lemma_read_joined(manifest_lines(tools, resolved), Seq::<char>::empty());
    lemma_read_empty();
}

/// The lines of a manifest, read one by one, declare what its sections list.
pub proof fn lemma_read_manifest_lines(tools: Seq<ToolView>, resolved: Seq<ResolvedView>)
    requires
        forall|i: int|
            0 <= i < tools.len() ==> reads_nothing(header_line(#[trigger] tools[i]))
                && reads_nothing(version_line(tools[i])),
        forall|i: int, j: int|
            0 <= i < tools.len() && 0 <= j < listed(tools[i], resolved).len() ==> reads_back(
                #[trigger] listed(tools[i], resolved)[j],
            ),
    ensures
        read_each(manifest_lines(tools, resolved)) == listed_all(tools, resolved),
    decreases tools.len(),
{
    if tools.len() > 0 {
        let init = tools.drop_last();
        let last = tools.last();
        lemma_read_manifest_lines(init, resolved);
        lemma_read_section(last, resolved);
        lemma_read_each_add(manifest_lines(init, resolved), section_lines(last, resolved));
    }
}

} // verus!
